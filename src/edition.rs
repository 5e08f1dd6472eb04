use crate::error::{with_error_model, CargoPlayError, ErrorModel};
use crate::text::same_text;
use vstd::prelude::*;

verus! {

/// The Rust edition that the generated project is built with.
#[derive(Debug, Clone, Copy, PartialEq, Eq, Structural)]
pub enum RustEdition {
    E2015,
    E2018,
    E2021,
}

/// The edition that a text names, if it names one.
pub open spec fn edition_of(s: Seq<char>) -> Option<RustEdition> {
    if s == "2015"@ {
        Some(RustEdition::E2015)
    } else if s == "2018"@ {
        Some(RustEdition::E2018)
    } else if s == "2021"@ {
        Some(RustEdition::E2021)
    } else {
        None
    }
}

/// Reading an edition from a text: the edition it names, or an error that carries it.
pub open spec fn edition_result(s: Seq<char>) -> Result<RustEdition, ErrorModel> {
    match edition_of(s) {
        Some(e) => Ok(e),
        None => Err(ErrorModel::InvalidEdition(s)),
    }
}

/// The text that names an edition.
pub open spec fn edition_text(e: RustEdition) -> Seq<char> {
    match e {
        RustEdition::E2015 => "2015"@,
        RustEdition::E2018 => "2018"@,
        RustEdition::E2021 => "2021"@,
    }
}

impl RustEdition {
    /// Reads an edition from its text; any other text is an `InvalidEdition` error
    /// that carries it.
    pub fn from_text(s: &str) -> (r: Result<RustEdition, CargoPlayError>)
        ensures
            with_error_model(r) == edition_result(s@),
    {
        if same_text(s, "2015") {
            Ok(RustEdition::E2015)
        } else if same_text(s, "2018") {
            Ok(RustEdition::E2018)
        } else if same_text(s, "2021") {
            Ok(RustEdition::E2021)
        } else {
            Err(CargoPlayError::InvalidEdition(s.to_owned()))
        }
    }

    /// The text that names this edition, as Cargo writes it.
    pub fn to_text(self) -> (r: String)
        ensures
            r@ == edition_text(self),
            edition_of(r@) == Some(self),
    {
        proof {
            reveal_strlit("2015");
            reveal_strlit("2018");
            reveal_strlit("2021");
            assert("2018"@[3] != "2015"@[3]);
            assert("2021"@[2] != "2015"@[2]);
            assert("2021"@[2] != "2018"@[2]);
        }
        match self {
            RustEdition::E2015 => String::from_str("2015"),
            RustEdition::E2018 => String::from_str("2018"),
            RustEdition::E2021 => String::from_str("2021"),
        }
    }
}

impl Default for RustEdition {
    fn default() -> (r: RustEdition)
        ensures
            r == RustEdition::E2021,
    {
        RustEdition::E2021
    }
}

impl std::str::FromStr for RustEdition {
    type Err = CargoPlayError;

    fn from_str(s: &str) -> (r: Result<RustEdition, CargoPlayError>)
        ensures
            with_error_model(r) == edition_result(s@),
    {
        RustEdition::from_text(s)
    }
}

} // verus!
