use vstd::prelude::*;

verus! {

/// Why a conversion was refused; each names the offending sheet, user, group or value.
#[derive(Debug, Clone, PartialEq, Eq)]
pub enum CsvError {
    SheetNotFound(String),
    UserNotExist(String),
    UserDupAuth(String),
    UserEmptyPwd(String),
    InvalidAuth(String),
    GroupNameDup(String),
}

/// The mathematical value of a [`CsvError`]: its kind and the text it names.
pub enum Fault {
    SheetNotFound(Seq<char>),
    UserNotExist(Seq<char>),
    UserDupAuth(Seq<char>),
    UserEmptyPwd(Seq<char>),
    InvalidAuth(Seq<char>),
    GroupNameDup(Seq<char>),
}

impl View for CsvError {
    type V = Fault;

    open spec fn view(&self) -> Fault {
        match self {
            CsvError::SheetNotFound(s) => Fault::SheetNotFound(s@),
            CsvError::UserNotExist(s) => Fault::UserNotExist(s@),
            CsvError::UserDupAuth(s) => Fault::UserDupAuth(s@),
            CsvError::UserEmptyPwd(s) => Fault::UserEmptyPwd(s@),
            CsvError::InvalidAuth(s) => Fault::InvalidAuth(s@),
            CsvError::GroupNameDup(s) => Fault::GroupNameDup(s@),
        }
    }
}

} // verus!
