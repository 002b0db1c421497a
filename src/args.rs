//! What the program is asked to do.

use vstd::prelude::*;

verus! {

/// How contacts are exported.
#[derive(Clone, Copy, Debug, PartialEq, Eq, Structural)]
pub enum OutputFormat {
    Json,
    Vcard,
}

/// A format name that is neither `json` nor `vcard`.
#[derive(Clone, Copy, Debug, PartialEq, Eq, Structural)]
pub struct InvalidOutputFormat;

/// The action to perform on the store.
#[derive(Clone, Copy, Debug, PartialEq, Eq, Structural)]
pub enum Command {
    /// The next birthday of every contact, in chronological order.
    Bdays,
    /// A calendar of the birthdays of all contacts.
    BdaysCalendar,
    /// All contacts in the given format.
    Export { format: OutputFormat },
    /// The names of all contacts.
    Names,
}

/// The command line: a command and, optionally, the directory of the store.
#[derive(Debug)]
pub struct Args {
    pub command: Command,
    pub store_path: Option<String>,
}

impl Args {
    pub fn command(&self) -> (r: &Command)
        ensures
            *r == self.command,
    {
        &self.command
    }
}

/// Settings read from the configuration file.
#[derive(Debug)]
pub struct Config {
    pub store_path: Option<String>,
}

/// ASCII letters to lower case; every other character unchanged.
pub open spec fn ascii_lower(c: char) -> char {
    if 'A' <= c && c <= 'Z' {
        ((c as u32) + 32) as char
    } else {
        c
    }
}

pub open spec fn ascii_lowercase_of(s: Seq<char>) -> Seq<char> {
    s.map_values(|c: char| ascii_lower(c))
}

/// Relies on `str::to_ascii_lowercase`: `A` to `Z` become `a` to `z`, every other character
/// stays.
#[verifier::external_body]
fn to_ascii_lowercase(s: &str) -> (r: String)
    ensures
        r@ == ascii_lowercase_of(s@),
{
    s.to_ascii_lowercase()
}

fn same_text(a: &str, b: &str) -> (r: bool)
    ensures
        r == (a@ == b@),
{
    let n = a.unicode_len();
    if n != b.unicode_len() {
        return false;
    }
    let mut i: usize = 0;
    while i < n
        invariant
            n == a@.len(),
            n == b@.len(),
            i <= n,
            forall|k: int| 0 <= k < i ==> a@[k] == b@[k],
        decreases n - i,
    {
        if a.get_char(i) != b.get_char(i) {
            return false;
        }
        i = i + 1;
    }
    assert(a@ =~= b@);
    true
}

/// The format that a name gives, ignoring the case of ASCII letters.
pub open spec fn format_of(s: Seq<char>) -> Option<OutputFormat> {
    if ascii_lowercase_of(s) == "json"@ {
        Some(OutputFormat::Json)
    } else if ascii_lowercase_of(s) == "vcard"@ {
        Some(OutputFormat::Vcard)
    } else {
        None
    }
}

impl OutputFormat {
    /// `json` or `vcard`, in any case of ASCII letters.
    pub fn from_str(format: &str) -> (r: Result<OutputFormat, InvalidOutputFormat>)
        ensures
            r is Ok <==> format_of(format@) is Some,
            r is Ok ==> format_of(format@) == Some(r->Ok_0),
    {
        let lower = to_ascii_lowercase(format);
        if same_text(lower.as_str(), "json") {
            Ok(OutputFormat::Json)
        } else if same_text(lower.as_str(), "vcard") {
            Ok(OutputFormat::Vcard)
        } else {
            Err(InvalidOutputFormat)
        }
    }
}

} // verus!
