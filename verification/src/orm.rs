//! The core trait marking a struct as a model for table mapping.
use vstd::prelude::*;

verus! {

/// The core trait marking a struct as a model.
/// Can be implemented for table mapping, migrations, and the like.
pub trait Model: Sized + Send + Sync + 'static {
    fn table_name() -> &'static str;
}

} // verus!
