//! The admin allow-list, as the administrative surface reads and amends it.

use vstd::prelude::*;

verus! {

/// One entry on the allow-list and the permissions it carries.
#[derive(Debug, Clone)]
pub struct AdminEntry {
    /// The login the entry admits.
    pub email: String,
    /// Whether the entry carries the danger permission. An entry exists
    /// because the login is an administrator; this says whether it also
    /// reaches danger. The tailnet policy can confer either permission on a
    /// login with no entry here at all, which this does not show.
    pub danger: bool,
}

/// Request body for granting or withdrawing the danger permission.
#[derive(Debug, Clone)]
pub struct SetDangerArgs {
    /// The allow-list entry to amend.
    pub email: String,
    /// Whether the entry should carry the danger permission.
    pub danger: bool,
}

/// Request body for granting admin access to an email address.
#[derive(Debug, Clone)]
pub struct AddArgs {
    /// The email address to add to the admin allow-list.
    pub email: String,
}

/// Request body for revoking admin access from an email address.
#[derive(Debug, Clone)]
pub struct DeleteArgs {
    /// The email address to remove from the admin allow-list.
    pub email: String,
}

/// The allow-list as its entries: each login with whether it reaches
/// danger, in the order the list holds them.
pub fn entries(admins: &[(String, bool)]) -> (r: Vec<AdminEntry>)
    ensures
        r@.len() == admins@.len(),
        forall|k: int| 0 <= k < r@.len() ==> (#[trigger] r@[k]).email@ == admins@[k].0@ && r@[k].danger == admins@[k].1,
{
    let mut out: Vec<AdminEntry> = Vec::new();
    let mut i: usize = 0;
    while i < admins.len()
        invariant
            i <= admins@.len(),
            out@.len() == i,
            forall|k: int| 0 <= k < i ==> (#[trigger] out@[k]).email@ == admins@[k].0@ && out@[k].danger == admins@[k].1,
        decreases admins@.len() - i,
    {
        out.push(AdminEntry { email: admins[i].0.clone(), danger: admins[i].1 });
        i = i + 1;
    }
    out
}

} // verus!
