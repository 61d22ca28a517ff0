//! Trusted declarations for the outside crates the library's logic calls.
//!
//! Each wrapper makes one outside call; its contract states only what the
//! crate's source shows of that call.  Results that depend on the machine
//! (the live process table) get no promise beyond their type; results that
//! depend on the arguments alone (a regex verdict, a deflate stream) are
//! named by uninterpreted functions.
use vstd::prelude::*;

verus! {

// ---------------------------------------------------------------------------
// regex
// ---------------------------------------------------------------------------
#[verifier::external_type_specification]
#[verifier::external_body]
pub struct ExRegex(regex::Regex);

/// Whether `regex::Regex::new` accepts this pattern string.
pub uninterp spec fn regex_valid(pattern: Seq<char>) -> bool;

/// The pattern a compiled `regex::Regex` was built from.
pub uninterp spec fn regex_pattern(re: regex::Regex) -> Seq<char>;

/// Whether the regular expression denoted by `pattern` matches somewhere in
/// `text`.  The verdict depends on the two strings alone.
pub uninterp spec fn regex_match(pattern: Seq<char>, text: Seq<char>) -> bool;

/// Relies on `regex::Regex::new`: compiles the pattern with the default
/// builder, failing exactly when the builder rejects it (bad syntax or the
/// default size limit) — a function of the pattern string alone.
#[verifier::external_body]
pub fn regex_new(pattern: &str) -> (r: Option<regex::Regex>)
    ensures
        r is Some <==> regex_valid(pattern@),
        r matches Some(re) ==> regex_pattern(re) == pattern@,
{
    regex::Regex::new(pattern).ok()
}

/// Relies on `regex::Regex::is_match`: true iff the compiled pattern
/// matches somewhere in the haystack.
#[verifier::external_body]
pub fn regex_is_match(re: &regex::Regex, text: &str) -> (r: bool)
    ensures
        r == regex_match(regex_pattern(*re), text@),
{
    re.is_match(text)
}

// ---------------------------------------------------------------------------
// serde_json
// ---------------------------------------------------------------------------
/// Whether `serde_json::from_str` accepts this text as a JSON document.
pub uninterp spec fn json_valid(text: Seq<char>) -> bool;

/// Relies on `serde_json::from_str::<Value>`: parses the text, returning
/// the parser's diagnostic on failure.
#[verifier::external_body]
pub fn json_check(content: &str) -> (r: Result<(), String>)
    ensures
        r is Ok <==> json_valid(content@),
{
    match serde_json::from_str::<serde_json::Value>(content) {
        Ok(_) => Ok(()),
        Err(e) => Err(e.to_string()),
    }
}

// ---------------------------------------------------------------------------
// sysinfo
// ---------------------------------------------------------------------------
#[verifier::external_type_specification]
#[verifier::external_body]
pub struct ExSystem(sysinfo::System);

/// Relies on `sysinfo::System::new_all`: a snapshot of the host's state.
#[verifier::external_body]
pub fn system_new() -> sysinfo::System {
    sysinfo::System::new_all()
}

/// Relies on `sysinfo::System::refresh_processes`: refreshes the process
/// table in place.  What it finds depends on the machine.
#[verifier::external_body]
pub fn refresh_process_table(sys: &mut sysinfo::System) {
    let _ = sys.refresh_processes(sysinfo::ProcessesToUpdate::All, true);
}

/// Relies on `sysinfo::System::process`: whether the refreshed table holds
/// an entry for this pid.  The answer depends on the machine.
#[verifier::external_body]
pub fn pid_exists(sys: &sysinfo::System, pid: u32) -> bool {
    sys.process(sysinfo::Pid::from_u32(pid)).is_some()
}

// ---------------------------------------------------------------------------
// miniz_oxide
// ---------------------------------------------------------------------------
/// The raw deflate stream `miniz_oxide` produces for these bytes at
/// compression level 6.  It depends on the input bytes alone.
pub uninterp spec fn deflate_of(data: Seq<u8>) -> Seq<u8>;

/// Relies on `miniz_oxide::deflate::compress_to_vec`: the raw deflate
/// stream for the input at level 6.
#[verifier::external_body]
pub fn deflate_bytes(data: &Vec<u8>) -> (r: Vec<u8>)
    ensures
        r@ == deflate_of(data@),
{
    miniz_oxide::deflate::compress_to_vec(data.as_slice(), 6)
}

} // verus!
