use vstd::prelude::*;

use crate::arg::traits::UserFormatter;
use crate::level::LogLevel;

verus! {

/// The string tables of a call site whose arguments reference none.
pub fn empty_string_tables_provider() -> (r: &'static [&'static [u8]])
    ensures
        r@.len() == 0,
{
    &[]
}

/// The user formatters of a call site that registers none.
pub fn empty_user_formatters_provider() -> (r: &'static [&'static dyn UserFormatter])
    ensures
        r@.len() == 0,
{
    &[]
}

/// What a log call site knows statically: its level, format string, location, and
/// the schema bytes, string tables and user formatters that decode its arguments.
///
/// `schemas` holds the argument count byte followed by one schema per argument.
pub struct Metadata {
    pub level: LogLevel,
    pub format_str: &'static str,
    pub file: &'static str,
    pub line: u32,
    pub module: &'static str,
    pub schemas: &'static [u8],
    pub string_tables: &'static [&'static [u8]],
    pub user_formatters: &'static [&'static dyn UserFormatter],
}

impl Metadata {
    #[allow(clippy::too_many_arguments)]
    pub fn new(
        level: LogLevel,
        format_str: &'static str,
        file: &'static str,
        line: u32,
        module: &'static str,
        schemas: &'static [u8],
        string_tables: &'static [&'static [u8]],
        user_formatters: &'static [&'static dyn UserFormatter],
    ) -> (r: Self)
        ensures
            r.level == level,
            r.format_str == format_str,
            r.file == file,
            r.line == line,
            r.module == module,
            r.schemas == schemas,
            r.string_tables == string_tables,
            r.user_formatters == user_formatters,
    {
        Metadata {
            level,
            format_str,
            file,
            line,
            module,
            schemas,
            string_tables,
            user_formatters,
        }
    }
}

} // verus!
