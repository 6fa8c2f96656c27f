//! `Profile.LoginWithPassword`.
use vstd::prelude::*;

verus! {

/// Parameters, on the wire as `[username, password, bytes]`.
#[derive(Clone, Debug, PartialEq, Eq)]
pub struct Params {
    pub username: String,
    pub password: String,
    pub bytes: Vec<u8>,
}

pub struct ParamsModel {
    pub username: Seq<char>,
    pub password: Seq<char>,
    pub bytes: Seq<u8>,
}

impl View for Params {
    type V = ParamsModel;

    open spec fn view(&self) -> ParamsModel {
        ParamsModel { username: self.username@, password: self.password@, bytes: self.bytes@ }
    }
}

/// Results, on the wire as `[ok]`.
#[derive(Clone, Copy, Debug, PartialEq, Eq, Structural)]
pub struct Results {
    pub ok: bool,
}

} // verus!
