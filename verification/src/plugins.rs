//! Plug-in markers of the render layer.  Their registration with the
//! application (which systems and resources they add) is done by the host
//! application; the library only names them.

use vstd::prelude::*;

verus! {

/// Registers all debugging material plug-ins (currently the debug grid).
pub struct DebugMaterialsPlugin;

/// Umbrella plug-in that registers every material sub-plug-in.
pub struct MaterialsPlugin;

} // verus!
