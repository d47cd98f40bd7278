//! The flavor system: dialect schemas, the registry that holds them, and
//! priority-based resolution of which flavor is active.

pub mod registry;
pub mod resolve;
pub mod schema;

pub use registry::FlavorRegistry;
pub use resolve::{FlavorPriority, FlavorSelectionConfig, LoadedFlavor};
pub use schema::{CommandDef, Flavor, ParameterConstraints, ParameterDef, ParameterType};
