//! Logger settings: plain configuration containers, with defaults filled in
//! for omitted fields.

use vstd::prelude::*;

verus! {

/// What a principal may do with the logger.
#[derive(Clone, Copy, Debug, PartialEq, Eq, Structural)]
pub enum LoggerPermission {
    /// May read the stored log records.
    Read,
    /// May change the logger configuration.
    Configure,
}

/// An identity, kept as an opaque run of bytes.
#[derive(Clone, Debug)]
pub struct Principal {
    /// The raw bytes of the identity.
    pub data: Vec<u8>,
}

/// Who may read or configure the logger.
pub type LoggerAcl = Vec<(Principal, LoggerPermission)>;

const DEFAULT_IN_MEMORY_RECORDS: usize = 1024;
const DEFAULT_MAX_RECORD_LENGTH: usize = 1024;

/// Log settings to initialize the logger with, as carried by older
/// configuration calls.
#[derive(Clone, Debug)]
pub struct LogSettings {
    /// Enable logging to the console.
    pub enable_console: bool,
    /// Number of records to store in the circular in-memory buffer.
    /// `None` disables storing records; a set value should be a power of two.
    pub in_memory_records: Option<usize>,
    /// Log configuration as a combination of filters, such as `info` or
    /// `debug,crate1::mod1=error`. By default the logger is off.
    pub log_filter: Option<String>,
}

impl Default for LogSettings {
    /// Console off, no stored records, no filter.
    fn default() -> (r: LogSettings)
        ensures
            r.enable_console == false,
            r.in_memory_records is None,
            r.log_filter is None,
    {
        LogSettings { enable_console: false, in_memory_records: None, log_filter: None }
    }
}

/// Logger settings as handed over the configuration interface: any field may
/// be omitted to ask for its default.
#[derive(Clone, Debug)]
pub struct LogCanisterSettings {
    /// Enable logging to the console.
    pub enable_console: Option<bool>,
    /// Number of records to store in the circular in-memory buffer.
    pub in_memory_records: Option<usize>,
    /// Longest stored record; longer ones are truncated.
    pub max_record_length: Option<usize>,
    /// Log configuration as a combination of filters.
    pub log_filter: Option<String>,
    /// Who may read or configure the logger.
    pub acl: Option<LoggerAcl>,
}

/// Logger settings, every field filled in.
#[derive(Clone, Debug)]
pub struct LogSettingsV2 {
    /// Enable logging to the console.
    pub enable_console: bool,
    /// Number of records to store in the circular in-memory buffer.
    pub in_memory_records: usize,
    /// Longest stored record; longer ones are truncated.
    pub max_record_length: usize,
    /// Log configuration as a combination of filters.
    pub log_filter: String,
    /// Who may read or configure the logger.
    pub acl: LoggerAcl,
}

impl Default for LogSettingsV2 {
    /// Console on, 1024 records of at most 1024 bytes each, a `debug`
    /// filter, and an empty access control list.
    fn default() -> (r: LogSettingsV2)
        ensures
            r.enable_console == true,
            r.in_memory_records == 1024,
            r.max_record_length == 1024,
            r.log_filter@ == "debug"@,
            r.acl@ == Seq::<(Principal, LoggerPermission)>::empty(),
    {
        LogSettingsV2 {
            enable_console: true,
            in_memory_records: DEFAULT_IN_MEMORY_RECORDS,
            max_record_length: DEFAULT_MAX_RECORD_LENGTH,
            log_filter: "debug".to_owned(),
            acl: Vec::new(),
        }
    }
}

impl LogSettingsV2 {
    /// Fills every omitted field of `settings` with its default; an omitted
    /// access control list defaults to `owner` alone being allowed to
    /// configure the logger.
    pub fn from_did(settings: LogCanisterSettings, owner: Principal) -> (r: LogSettingsV2)
        ensures
            settings.enable_console matches Some(c) ==> r.enable_console == c,
            settings.enable_console is None ==> r.enable_console == true,
            settings.in_memory_records matches Some(n) ==> r.in_memory_records == n,
            settings.in_memory_records is None ==> r.in_memory_records == 1024,
            settings.max_record_length matches Some(n) ==> r.max_record_length == n,
            settings.max_record_length is None ==> r.max_record_length == 1024,
            settings.log_filter matches Some(f) ==> r.log_filter == f,
            settings.log_filter is None ==> r.log_filter@ == "debug"@,
            settings.acl matches Some(a) ==> r.acl == a,
            settings.acl is None ==> r.acl@ == seq![(owner, LoggerPermission::Configure)],
    {
        let default_settings = LogSettingsV2::default();
        let enable_console = match settings.enable_console {
            Some(c) => c,
            None => default_settings.enable_console,
        };
        let in_memory_records = match settings.in_memory_records {
            Some(n) => n,
            None => default_settings.in_memory_records,
        };
        let max_record_length = match settings.max_record_length {
            Some(n) => n,
            None => default_settings.max_record_length,
        };
        let log_filter = match settings.log_filter {
            Some(f) => f,
            None => default_settings.log_filter,
        };
        let acl = match settings.acl {
            Some(a) => a,
            None => {
                let mut only_owner: LoggerAcl = Vec::new();
                only_owner.push((owner, LoggerPermission::Configure));
                only_owner
            },
        };
        LogSettingsV2 { enable_console, in_memory_records, max_record_length, log_filter, acl }
    }
}

impl From<LogSettingsV2> for LogCanisterSettings {
    /// Wraps every field in `Some`, for handing back over the configuration
    /// interface.
    fn from(value: LogSettingsV2) -> (r: LogCanisterSettings) {
        LogCanisterSettings {
            enable_console: Some(value.enable_console),
            in_memory_records: Some(value.in_memory_records),
            max_record_length: Some(value.max_record_length),
            log_filter: Some(value.log_filter),
            acl: Some(value.acl),
        }
    }
}

impl vstd::std_specs::convert::FromSpecImpl<LogSettingsV2> for LogCanisterSettings {
    open spec fn obeys_from_spec() -> bool {
        true
    }

    open spec fn from_spec(value: LogSettingsV2) -> LogCanisterSettings {
        LogCanisterSettings {
            enable_console: Some(value.enable_console),
            in_memory_records: Some(value.in_memory_records),
            max_record_length: Some(value.max_record_length),
            log_filter: Some(value.log_filter),
            acl: Some(value.acl),
        }
    }
}

} // verus!
