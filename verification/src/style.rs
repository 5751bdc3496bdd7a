//! Terminal styling for human output.
//!
//! Color is opt-in and gated. It is applied only when all of these hold:
//! stdout is a terminal, the `NO_COLOR` environment variable is unset, and the
//! operator has not passed `--no-color`. In every other case the styled
//! renderers emit the exact plain text.

use vstd::prelude::*;

verus! {

/// TTY-gated ANSI styling for the human reports.
///
/// [`Style::plain`] is the always-off form for callers that want the
/// byte-exact text.
#[derive(Clone, Copy, Debug, PartialEq, Eq, Structural)]
pub struct Style {
    color: bool,
}

/// `text` in the given SGR code, or unchanged where color is off.
pub open spec fn painted(color: bool, code: Seq<char>, text: Seq<char>) -> Seq<char> {
    if color {
        "\x1b["@ + code + "m"@ + text + "\x1b[0m"@
    } else {
        text
    }
}

/// Green text.
pub open spec fn green(color: bool, text: Seq<char>) -> Seq<char> {
    painted(color, "32"@, text)
}

/// Red text.
pub open spec fn red(color: bool, text: Seq<char>) -> Seq<char> {
    painted(color, "31"@, text)
}

/// Yellow text.
pub open spec fn yellow(color: bool, text: Seq<char>) -> Seq<char> {
    painted(color, "33"@, text)
}

/// Cyan text.
pub open spec fn cyan(color: bool, text: Seq<char>) -> Seq<char> {
    painted(color, "36"@, text)
}

impl Style {
    /// Whether this style emits ANSI escapes.
    pub closed spec fn on(self) -> bool {
        self.color
    }

    /// An always-plain style.
    pub fn plain() -> (r: Self)
        ensures
            !r.on(),
    {
        Style { color: false }
    }

    /// A style that always colors, bypassing the TTY/env gate.
    pub fn colored_for_tests() -> (r: Self)
        ensures
            r.on(),
    {
        Style { color: true }
    }

    /// The color decision as a pure predicate: color applies only when the
    /// `--no-color` flag was not given, stdout is a terminal, and `NO_COLOR`
    /// is not set.
    pub fn from_parts(no_color: bool, is_terminal: bool, no_color_env: bool) -> (r: Self)
        ensures
            r.on() == (!no_color && is_terminal && !no_color_env),
    {
        Style { color: !no_color && is_terminal && !no_color_env }
    }

    /// Whether this style will emit ANSI escapes.
    pub fn colored(self) -> (r: bool)
        ensures
            r == self.on(),
    {
        self.color
    }

    /// Wrap `text` in the ANSI SGR `code` (e.g. `"32"`); the identity when
    /// plain.
    pub fn paint(self, code: &str, text: &str) -> (out: String)
        ensures
            out@ == painted(self.on(), code@, text@),
    {
        if self.color {
            let mut out = "\x1b[".to_owned();
            out.append(code);
            out.append("m");
            out.append(text);
            out.append("\x1b[0m");
            out
        } else {
            text.to_owned()
        }
    }

    /// Green — a passing/healthy result (`PASS`, 2xx, `covers: yes`).
    pub fn pass(self, text: &str) -> (out: String)
        ensures
            out@ == green(self.on(), text@),
    {
        self.paint("32", text)
    }

    /// Red — a failure (a refused connection, 4xx/5xx, `covers: no`,
    /// an expired certificate).
    pub fn fail(self, text: &str) -> (out: String)
        ensures
            out@ == red(self.on(), text@),
    {
        self.paint("31", text)
    }

    /// Yellow — a warning/anomaly worth attention (3xx, near-expiry, a changed
    /// route path, a truncated body).
    pub fn warn(self, text: &str) -> (out: String)
        ensures
            out@ == yellow(self.on(), text@),
    {
        self.paint("33", text)
    }

    /// Cyan — an informational marker (`INFO` severity).
    pub fn info(self, text: &str) -> (out: String)
        ensures
            out@ == cyan(self.on(), text@),
    {
        self.paint("36", text)
    }
}

} // verus!
