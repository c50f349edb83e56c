use vstd::prelude::*;
use vstd::string::StringExecFns;

verus! {

// ---------------------------------------------------------------------------
// Model
// ---------------------------------------------------------------------------

pub enum ErrModel {
    DuplicateContentFile { file: Seq<char>, config_path: Seq<char> },
    DuplicateArchiveFile { file: Seq<char>, config_path: Seq<char> },
    CannotAddContentFile { file: Seq<char>, config_path: Seq<char> },
    CannotAddArchiveFile { file: Seq<char>, config_path: Seq<char> },
    DuplicateGroundcoverFile { file: Seq<char>, config_path: Seq<char> },
    CannotAddGroundcoverFile { file: Seq<char>, config_path: Seq<char> },
    InvalidGameSetting { value: Seq<char>, config_path: Seq<char> },
    BadEncoding { value: Seq<char>, config_path: Seq<char> },
    InvalidLine { value: Seq<char>, config_path: Seq<char> },
    Io { message: Seq<char> },
    NotFileOrDirectory { config_path: Seq<char> },
    CannotFind { config_path: Seq<char> },
    RecursionLimit { config_path: Seq<char> },
}

// ---------------------------------------------------------------------------
// The error type
// ---------------------------------------------------------------------------

/// Everything that can abort loading or editing a configuration.  Each
/// variant carries the offending value and the path of the file that
/// produced it.
#[derive(Debug)]
pub enum ConfigError {
    DuplicateContentFile { file: String, config_path: String },
    DuplicateArchiveFile { file: String, config_path: String },
    CannotAddContentFile { file: String, config_path: String },
    CannotAddArchiveFile { file: String, config_path: String },
    DuplicateGroundcoverFile { file: String, config_path: String },
    CannotAddGroundcoverFile { file: String, config_path: String },
    InvalidGameSetting { value: String, config_path: String },
    BadEncoding { value: String, config_path: String },
    InvalidLine { value: String, config_path: String },
    /// An operating-system failure, carried as its message text.
    Io { message: String },
    NotFileOrDirectory { config_path: String },
    CannotFind { config_path: String },
    /// The chain of `config=` references never bottomed out.
    RecursionLimit { config_path: String },
}

impl View for ConfigError {
    type V = ErrModel;

    open spec fn view(&self) -> ErrModel {
        match self {
            ConfigError::DuplicateContentFile { file, config_path } => ErrModel::DuplicateContentFile {
                file: file@,
                config_path: config_path@,
            },
            ConfigError::DuplicateArchiveFile { file, config_path } => ErrModel::DuplicateArchiveFile {
                file: file@,
                config_path: config_path@,
            },
            ConfigError::CannotAddContentFile { file, config_path } => ErrModel::CannotAddContentFile {
                file: file@,
                config_path: config_path@,
            },
            ConfigError::CannotAddArchiveFile { file, config_path } => ErrModel::CannotAddArchiveFile {
                file: file@,
                config_path: config_path@,
            },
            ConfigError::DuplicateGroundcoverFile { file, config_path } => ErrModel::DuplicateGroundcoverFile {
                file: file@,
                config_path: config_path@,
            },
            ConfigError::CannotAddGroundcoverFile { file, config_path } => ErrModel::CannotAddGroundcoverFile {
                file: file@,
                config_path: config_path@,
            },
            ConfigError::InvalidGameSetting { value, config_path } => ErrModel::InvalidGameSetting {
                value: value@,
                config_path: config_path@,
            },
            ConfigError::BadEncoding { value, config_path } => ErrModel::BadEncoding {
                value: value@,
                config_path: config_path@,
            },
            ConfigError::InvalidLine { value, config_path } => ErrModel::InvalidLine {
                value: value@,
                config_path: config_path@,
            },
            ConfigError::Io { message } => ErrModel::Io { message: message@ },
            ConfigError::NotFileOrDirectory { config_path } => ErrModel::NotFileOrDirectory {
                config_path: config_path@,
            },
            ConfigError::CannotFind { config_path } => ErrModel::CannotFind {
                config_path: config_path@,
            },
            ConfigError::RecursionLimit { config_path } => ErrModel::RecursionLimit {
                config_path: config_path@,
            },
        }
    }
}

// ---------------------------------------------------------------------------
// Messages
// ---------------------------------------------------------------------------

pub open spec fn spec_message(e: ErrModel) -> Seq<char> {
    match e {
        ErrModel::InvalidGameSetting { value, config_path } => "Invalid fallback setting '"@
            + value + "' in config file '"@ + config_path + "'"@,
        ErrModel::Io { message } => "IO error: "@ + message,
        ErrModel::NotFileOrDirectory { config_path } => "Unable to determine whether "@
            + config_path + " was a file or directory, refusing to read."@,
        ErrModel::CannotFind { config_path } => "An openmw.cfg does not exist at: "@
            + config_path,
        ErrModel::DuplicateContentFile { file, config_path } => file
            + " has appeared in the content files list twice. Its second occurence was in: "@
            + config_path,
        ErrModel::CannotAddContentFile { file, config_path } => file
            + " cannot be added to the configuration map as a content file because it was already defined by: "@
            + config_path,
        ErrModel::DuplicateGroundcoverFile { file, config_path } => file
            + " has appeared in the groundcover list twice. Its second occurence was in: "@
            + config_path,
        ErrModel::CannotAddGroundcoverFile { file, config_path } => file
            + " cannot be added to the configuration map as a groundcover plugin because it was already defined by: "@
            + config_path,
        ErrModel::DuplicateArchiveFile { file, config_path } => file
            + " has appeared in the BSA/Archive list twice. Its second occurence was in: "@
            + config_path,
        ErrModel::CannotAddArchiveFile { file, config_path } => file
            + " cannot be added to the configuration map as a fallback-archive because it was already defined by: "@
            + config_path,
        ErrModel::BadEncoding { value, config_path } => "Invalid encoding type: "@ + value
            + " in config file "@ + config_path,
        ErrModel::InvalidLine { value, config_path } => "Invalid pair in openmw.cfg "@ + value
            + " was defined by "@ + config_path,
        ErrModel::RecursionLimit { config_path } => "Configuration chain is too deep or cyclic at: "@
            + config_path,
    }
}

impl ConfigError {
    /// The human-readable description of the error.
    pub fn message(&self) -> (r: String)
        ensures
            r@ == spec_message(self@),
    {
        match self {
            ConfigError::InvalidGameSetting { value, config_path } => {
                let mut m = String::new();
                m.append("Invalid fallback setting '");
                m.append(value.as_str());
                m.append("' in config file '");
                m.append(config_path.as_str());
                m.append("'");
                assert(m@ =~= spec_message(self@));
                m
            },
            ConfigError::Io { message } => {
                let mut m = String::new();
                m.append("IO error: ");
                m.append(message.as_str());
                assert(m@ =~= spec_message(self@));
                m
            },
            ConfigError::NotFileOrDirectory { config_path } => {
                let mut m = String::new();
                m.append("Unable to determine whether ");
                m.append(config_path.as_str());
                m.append(" was a file or directory, refusing to read.");
                assert(m@ =~= spec_message(self@));
                m
            },
            ConfigError::CannotFind { config_path } => {
                let mut m = String::new();
                m.append("An openmw.cfg does not exist at: ");
                m.append(config_path.as_str());
                assert(m@ =~= spec_message(self@));
                m
            },
            ConfigError::DuplicateContentFile { file, config_path } => {
                let mut m = String::new();
                m.append(file.as_str());
                m.append(
                    " has appeared in the content files list twice. Its second occurence was in: ",
                );
                m.append(config_path.as_str());
                assert(m@ =~= spec_message(self@));
                m
            },
            ConfigError::CannotAddContentFile { file, config_path } => {
                let mut m = String::new();
                m.append(file.as_str());
                m.append(
                    " cannot be added to the configuration map as a content file because it was already defined by: ",
                );
                m.append(config_path.as_str());
                assert(m@ =~= spec_message(self@));
                m
            },
            ConfigError::DuplicateGroundcoverFile { file, config_path } => {
                let mut m = String::new();
                m.append(file.as_str());
                m.append(
                    " has appeared in the groundcover list twice. Its second occurence was in: ",
                );
                m.append(config_path.as_str());
                assert(m@ =~= spec_message(self@));
                m
            },
            ConfigError::CannotAddGroundcoverFile { file, config_path } => {
                let mut m = String::new();
                m.append(file.as_str());
                m.append(
                    " cannot be added to the configuration map as a groundcover plugin because it was already defined by: ",
                );
                m.append(config_path.as_str());
                assert(m@ =~= spec_message(self@));
                m
            },
            ConfigError::DuplicateArchiveFile { file, config_path } => {
                let mut m = String::new();
                m.append(file.as_str());
                m.append(
                    " has appeared in the BSA/Archive list twice. Its second occurence was in: ",
                );
                m.append(config_path.as_str());
                assert(m@ =~= spec_message(self@));
                m
            },
            ConfigError::CannotAddArchiveFile { file, config_path } => {
                let mut m = String::new();
                m.append(file.as_str());
                m.append(
                    " cannot be added to the configuration map as a fallback-archive because it was already defined by: ",
                );
                m.append(config_path.as_str());
                assert(m@ =~= spec_message(self@));
                m
            },
            ConfigError::BadEncoding { value, config_path } => {
                let mut m = String::new();
                m.append("Invalid encoding type: ");
                m.append(value.as_str());
                m.append(" in config file ");
                m.append(config_path.as_str());
                assert(m@ =~= spec_message(self@));
                m
            },
            ConfigError::InvalidLine { value, config_path } => {
                let mut m = String::new();
                m.append("Invalid pair in openmw.cfg ");
                m.append(value.as_str());
                m.append(" was defined by ");
                m.append(config_path.as_str());
                assert(m@ =~= spec_message(self@));
                m
            },
            ConfigError::RecursionLimit { config_path } => {
                let mut m = String::new();
                m.append("Configuration chain is too deep or cyclic at: ");
                m.append(config_path.as_str());
                assert(m@ =~= spec_message(self@));
                m
            },
        }
    }
}

} // verus!
