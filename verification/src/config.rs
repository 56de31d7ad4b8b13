//! Configuration values as the core consumes them. Reading the
//! configuration file and decoding it lives with the surrounding I/O
//! code, which hands these plain types over.

use vstd::prelude::*;
use vstd::string::StringExecFns;

verus! {

/// The whole configuration.
#[derive(Clone, Debug)]
pub struct CompleteConfig {
    /// Internal functionality
    pub terminal: TerminalConfig,
    /// What everything looks like to the user
    pub frontend: FrontendConfig,
}

/// How the terminal side behaves.
#[derive(Clone, Debug)]
pub struct TerminalConfig {
    /// How often the terminal will update
    pub tick_delay: u64,
}

/// What everything looks like to the user.
#[derive(Clone, Debug)]
pub struct FrontendConfig {
    /// The margin around the main window from to the terminal border
    pub margin: u16,
    /// The shape of the cursor in insert boxes.
    pub cursor_shape: CursorType,
    /// If the cursor should be blinking.
    pub blinking_cursor: bool,
    pub default_message: String,
}

/// The shape of the cursor in insert boxes.
#[derive(PartialEq, Eq, Structural, Copy, Clone, Debug)]
pub enum CursorType {
    User,
    Line,
    Block,
    UnderScore,
}

impl Default for TerminalConfig {
    fn default() -> (r: TerminalConfig)
        ensures
            r.tick_delay == 3,
    {
        TerminalConfig { tick_delay: 3 }
    }
}

impl Default for FrontendConfig {
    fn default() -> (r: FrontendConfig)
        ensures
            r.margin == 2,
            r.cursor_shape == CursorType::User,
            r.blinking_cursor == true,
            r.default_message@ == (
            "> defaults:\n> margin=2\n> Cursor::Type=User\n> blinking_cursor=true")@,
    {
        FrontendConfig {
            margin: 2,
            cursor_shape: CursorType::User,
            blinking_cursor: true,
            default_message: (
            "> defaults:\n> margin=2\n> Cursor::Type=User\n> blinking_cursor=true").to_owned(),
        }
    }
}

impl Default for CursorType {
    fn default() -> (r: CursorType)
        ensures
            r == CursorType::User,
    {
        CursorType::User
    }
}

impl Default for CompleteConfig {
    fn default() -> (r: CompleteConfig)
        ensures
            r.terminal.tick_delay == 3,
            r.frontend.margin == 2,
            r.frontend.cursor_shape == CursorType::User,
            r.frontend.blinking_cursor == true,
    {
        CompleteConfig { terminal: TerminalConfig::default(), frontend: FrontendConfig::default() }
    }
}

/// Whether two strings hold the same characters.
pub fn str_eq(s: &str, t: &str) -> (r: bool)
    ensures
        r == (s@ == t@),
{
    let n = s.unicode_len();
    let m = t.unicode_len();
    if n != m {
        return false;
    }
    let mut i: usize = 0;
    while i < n
        invariant
            i <= n,
            n == s@.len(),
            n == t@.len(),
            forall|j: int| 0 <= j < i ==> s@[j] == t@[j],
        decreases n - i,
    {
        if s.get_char(i) != t.get_char(i) {
            return false;
        }
        i += 1;
    }
    proof {
        assert(s@ =~= t@);
    }
    true
}

/// The cursor shape a configuration word names; every unknown word means
/// the block shape.
pub open spec fn cursor_from_chars(s: Seq<char>) -> CursorType {
    if s == ("line")@ {
        CursorType::Line
    } else if s == ("underscore")@ {
        CursorType::UnderScore
    } else {
        CursorType::Block
    }
}

impl CursorType {
    /// Read a cursor shape from its configuration word.
    pub fn from_str(s: &str) -> (r: CursorType)
        ensures
            r == cursor_from_chars(s@),
    {
        if str_eq(s, "line") {
            CursorType::Line
        } else if str_eq(s, "underscore") {
            CursorType::UnderScore
        } else {
            CursorType::Block
        }
    }
}

} // verus!
