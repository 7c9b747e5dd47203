use vstd::prelude::*;

verus! {

/// Which VM the dashboard currently shows: every VM of the environment,
/// or exactly one VM given by its name.
pub enum SelectedVm {
    All,
    SingleVm(String),
}

impl SelectedVm {
    pub open spec fn is_all_spec(&self) -> bool {
        self is All
    }

    /// The VM name is `name` exactly when a single VM with that name is selected.
    pub open spec fn is_single_named(&self, name: Seq<char>) -> bool {
        match self {
            SelectedVm::SingleVm(v) => v@ == name,
            SelectedVm::All => false,
        }
    }

    pub fn is_all(&self) -> (r: bool)
        ensures
            r == self.is_all_spec(),
    {
        match self {
            SelectedVm::All => true,
            _ => false,
        }
    }

    pub fn is_single_selected_with_name(&self, name: &str) -> (r: bool)
        ensures
            r == self.is_single_named(name@),
    {
        match self {
            SelectedVm::SingleVm(value) => crate::text::str_eq(value.as_str(), name),
            _ => false,
        }
    }
}

impl Clone for SelectedVm {
    fn clone(&self) -> (r: Self)
        ensures
            r == *self,
    {
        match self {
            SelectedVm::All => SelectedVm::All,
            SelectedVm::SingleVm(v) => SelectedVm::SingleVm(v.clone()),
        }
    }
}

} // verus!
