//! The networks that a wallet can be on.
use vstd::prelude::*;

verus! {

#[derive(Clone, Copy, Debug, PartialEq, Eq, Structural)]
pub enum NetworkType {
    Main,
    Test,
    Regtest,
}

impl NetworkType {
    /// The network's name.
    pub open spec fn text(self) -> Seq<char> {
        match self {
            NetworkType::Main => "Main"@,
            NetworkType::Test => "Test"@,
            NetworkType::Regtest => "Regtest"@,
        }
    }

    pub fn name(&self) -> (r: String)
        ensures
            r@ == self.text(),
    {
        match self {
            NetworkType::Main => "Main".to_owned(),
            NetworkType::Test => "Test".to_owned(),
            NetworkType::Regtest => "Regtest".to_owned(),
        }
    }
}

} // verus!
