//! `Profile.LoginWithToken`.
use vstd::prelude::*;

verus! {

/// Parameters, on the wire as `[token]`.
#[derive(Clone, Debug, PartialEq, Eq)]
pub struct Params {
    pub token: String,
}

impl View for Params {
    type V = Seq<char>;

    open spec fn view(&self) -> Seq<char> {
        self.token@
    }
}

/// Results, on the wire as `[ok]`.
#[derive(Clone, Copy, Debug, PartialEq, Eq, Structural)]
pub struct Results {
    pub ok: bool,
}

} // verus!
