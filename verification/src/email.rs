//! Settings for the notification side effect. Dispatch itself is an
//! external collaborator invoked at the process edge with a rendered
//! message.

use vstd::prelude::*;

verus! {

/// Connection settings for the mail transport that delivers
/// notification messages.
#[derive(Clone)]
pub struct EmailSettings {
    pub smtp_server: String,
    pub smtp_user: String,
    pub smtp_password: String,
    pub sender: String,
    pub recipient: String,
}

} // verus!
