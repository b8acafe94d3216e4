use vstd::prelude::*;
use vstd::string::*;

verus! {

/// What went wrong while working with one of the files of a probe kind,
/// with the path of the file where it is known.
#[derive(Debug, Clone)]
pub enum AugmentedFileError {
    Open(Option<String>),
    Read(Option<String>),
    Metadata(Option<String>),
    Write(Option<String>),
    Parse(Option<String>),
}

/// The file error under the name of the older helpers.
pub type SPIOError = AugmentedFileError;

/// The verb that a message about the failed operation uses.
pub open spec fn op_verb(e: AugmentedFileError) -> Seq<char> {
    match e {
        AugmentedFileError::Open(_) => "open"@,
        AugmentedFileError::Read(_) => "read"@,
        AugmentedFileError::Metadata(_) => "get metadata"@,
        AugmentedFileError::Write(_) => "write"@,
        AugmentedFileError::Parse(_) => "parse"@,
    }
}

/// The path carried by an error, or nothing.
pub open spec fn op_path(e: AugmentedFileError) -> Seq<char> {
    let p = match e {
        AugmentedFileError::Open(p) => p,
        AugmentedFileError::Read(p) => p,
        AugmentedFileError::Metadata(p) => p,
        AugmentedFileError::Write(p) => p,
        AugmentedFileError::Parse(p) => p,
    };
    match p {
        Some(s) => s@,
        None => Seq::empty(),
    }
}

/// `Unable to <verb> '<path>'`.
pub open spec fn file_error_text(e: AugmentedFileError) -> Seq<char> {
    "Unable to "@ + op_verb(e) + " '"@ + op_path(e) + "'"@
}

impl AugmentedFileError {
    /// A one-line message naming the operation and the path.
    pub fn description(&self) -> (r: String)
        ensures
            r@ == file_error_text(*self),
    {
        let (verb, path): (&str, &Option<String>) = match self {
            AugmentedFileError::Open(p) => ("open", p),
            AugmentedFileError::Read(p) => ("read", p),
            AugmentedFileError::Metadata(p) => ("get metadata", p),
            AugmentedFileError::Write(p) => ("write", p),
            AugmentedFileError::Parse(p) => ("parse", p),
        };
        proof {
            reveal_strlit("open");
            reveal_strlit("read");
            reveal_strlit("get metadata");
            reveal_strlit("write");
            reveal_strlit("parse");
        }
        let mut r = "Unable to ".to_owned();
        r.append(verb);
        r.append(" '");
        match path {
            Some(p) => r.append(p.as_str()),
            None => {},
        }
        r.append("'");
        r
    }
}

/// Errors of the per-kind manager: its three files, and the rules of the
/// options protocol.
#[derive(Debug, Clone)]
pub enum ManagerError {
    IndexFileIO(AugmentedFileError),
    DataFileIO(AugmentedFileError),
    OptionsFileIO(AugmentedFileError),
    InvalidAddrArgument,
    NonceConflict,
}

/// The message of a manager error.
pub open spec fn manager_error_text(e: ManagerError) -> Seq<char> {
    match e {
        ManagerError::IndexFileIO(f) => file_error_text(f) + " index file"@,
        ManagerError::DataFileIO(f) => file_error_text(f) + " data file"@,
        ManagerError::OptionsFileIO(f) => file_error_text(f) + " options file"@,
        ManagerError::InvalidAddrArgument => "invalid addr argument"@,
        ManagerError::NonceConflict => "nonce conflict"@,
    }
}

impl ManagerError {
    /// A one-line message; file errors name the file that failed.
    pub fn description(&self) -> (r: String)
        ensures
            r@ == manager_error_text(*self),
    {
        match self {
            ManagerError::IndexFileIO(e) => {
                let mut r = e.description();
                r.append(" index file");
                r
            },
            ManagerError::DataFileIO(e) => {
                let mut r = e.description();
                r.append(" data file");
                r
            },
            ManagerError::OptionsFileIO(e) => {
                let mut r = e.description();
                r.append(" options file");
                r
            },
            ManagerError::InvalidAddrArgument => "invalid addr argument".to_owned(),
            ManagerError::NonceConflict => "nonce conflict".to_owned(),
        }
    }
}

} // verus!
