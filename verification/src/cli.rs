//! The management command surface and the input format checks used when
//! adding servers and clients.

use vstd::prelude::*;
use crate::config::ClientConfig;
use crate::text::{is_digit, is_space, is_space_char, str_eq};

verus! {

/// An ASCII letter.
pub open spec fn is_alpha(c: char) -> bool {
    ('a' <= c && c <= 'z') || ('A' <= c && c <= 'Z')
}

/// An ASCII letter or digit.
pub open spec fn is_alnum(c: char) -> bool {
    is_alpha(c) || is_digit(c)
}

/// A nonempty string of ASCII letters, digits and hyphens.
pub open spec fn name_like(s: Seq<char>) -> bool {
    s.len() > 0 && forall|i: int| 0 <= i < s.len() ==> is_alnum(#[trigger] s[i]) || s[i] == '-'
}

/// `s` splits at `a` and `h` into a scheme of letters, `://`, an
/// alphanumeric host, and an optional `:port` of digits.
pub open spec fn base_url_parts(s: Seq<char>, a: int, h: int) -> bool {
    &&& 0 < a
    &&& a + 3 < h <= s.len()
    &&& (forall|i: int| 0 <= i < a ==> is_alpha(#[trigger] s[i]))
    &&& s.subrange(a, a + 3) == "://"@
    &&& (forall|i: int| a + 3 <= i < h ==> is_alnum(#[trigger] s[i]))
    &&& (h == s.len() || (s[h] == ':' && h + 1 < s.len() && forall|i: int|
        h + 1 <= i < s.len() ==> is_digit(#[trigger] s[i])))
}

/// No whitespace at all.
pub open spec fn no_whitespace(s: Seq<char>) -> bool {
    forall|i: int| 0 <= i < s.len() ==> !is_space(#[trigger] s[i])
}

/// A scheme of letters, `://`, an alphanumeric host, and an optional
/// `:port` of digits — nothing more.
pub open spec fn base_url_like(s: Seq<char>) -> bool {
    exists|a: int, h: int| base_url_parts(s, a, h)
}

/// Relies on `regex::Regex::new` and `Regex::is_match`: the anchored
/// pattern `^[a-zA-Z0-9-]+$` matches exactly the nonempty strings of
/// ASCII letters, digits and hyphens.
#[verifier::external_body]
fn matches_name_pattern(text: &str) -> (r: bool)
    ensures
        r == name_like(text@),
{
    regex::Regex::new("^[a-zA-Z0-9-]+$").unwrap().is_match(text)
}

/// Relies on `regex::Regex::new` and `Regex::is_match`: the anchored
/// pattern `^[a-zA-Z]+://[a-zA-Z0-9]+(:[0-9]+)?$` matches exactly the
/// strings of `base_url_like` shape.
#[verifier::external_body]
fn matches_base_url_pattern(text: &str) -> (r: bool)
    ensures
        r == base_url_like(text@),
{
    regex::Regex::new("^[a-zA-Z]+://[a-zA-Z0-9]+(:[0-9]+)?$").unwrap().is_match(text)
}

/// The input formats accepted by the management prompts.
pub enum FormatChecker {
    BaseUrl,
    Name,
    NotAllowWhitespace,
    AnyText,
}

impl FormatChecker {
    /// What each format accepts.
    pub open spec fn spec_valid(&self, s: Seq<char>) -> bool {
        match self {
            FormatChecker::BaseUrl => base_url_like(s),
            FormatChecker::Name => name_like(s),
            FormatChecker::NotAllowWhitespace => no_whitespace(s),
            FormatChecker::AnyText => true,
        }
    }

    /// Checks one line of operator input against this format.
    pub fn valid(&self, text: &str) -> (r: bool)
        ensures
            r == self.spec_valid(text@),
    {
        match self {
            FormatChecker::BaseUrl => matches_base_url_pattern(text),
            FormatChecker::Name => matches_name_pattern(text),
            FormatChecker::NotAllowWhitespace => {
                let n = text.unicode_len();
                let mut i: usize = 0;
                while i < n
                    invariant
                        self is NotAllowWhitespace,
                        n == text@.len(),
                        i <= n,
                        forall|m: int| 0 <= m < i ==> !is_space(#[trigger] text@[m]),
                    decreases n - i,
                {
                    if is_space_char(text.get_char(i)) {
                        proof {
                            assert(is_space(text@[i as int]));
                        }
                        return false;
                    }
                    i = i + 1;
                }
                true
            },
            FormatChecker::AnyText => true,
        }
    }
}

/// The client configuration a kind selects: only "telegram" is known,
/// and it requires a token.
pub fn client_config_of(name: &str, kind: &str, token: Option<String>) -> (r: Option<ClientConfig>)
    ensures
        match r {
            Some(c) => kind@ == "telegram"@ && (token matches Some(t) && c.name@ == name@ && c.kind@
                == "telegram"@ && (c.token matches Some(ct) && ct@ == t@)),
            None => kind@ != "telegram"@ || token is None,
        },
{
    if str_eq(kind, "telegram") {
        match token {
            Some(t) => Some(ClientConfig::new_telegram(name, t.as_str())),
            None => None,
        }
    } else {
        None
    }
}

/// The management command surface.
pub struct Cli {
    pub command: Commands,
}

/// The top-level subcommands.
pub enum Commands {
    Server { command: ServerCommands },
    Client { command: ClientCommands },
    Password { command: PasswordCommands },
    Event { command: EventCommands },
    Run,
}

pub enum ServerCommands {
    Add,
    List,
}

pub enum ClientCommands {
    Add,
    List,
}

pub enum PasswordCommands {
    Assign { password: String },
    Clear,
}

pub enum EventCommands {
    Add,
    List,
    Remove { name: String },
}

} // verus!
