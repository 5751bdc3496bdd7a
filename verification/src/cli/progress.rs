//! Progress of long-running multi-target sweeps.
//!
//! Progress belongs on standard error, and only when someone can watch it:
//! each completed unit overwrites the same line with `\r`, and the final line
//! ends with a newline.

use crate::text::{dec, push_dec};
use vstd::prelude::*;

verus! {

/// Whether a progress display should be shown for a `total`-unit run: only
/// multi-target sweeps get a counter, and only when the user can watch
/// standard error and has not quieted the visual affordances.
pub fn should_show(total: usize, no_color_flag: bool, no_color_env: bool, stderr_tty: bool) -> (r: bool)
    ensures
        r == (total > 1 && !no_color_flag && !no_color_env && stderr_tty),
{
    total > 1 && !no_color_flag && !no_color_env && stderr_tty
}

/// A counted progress poster for a multi-target sweep.
pub struct Progress {
    /// Whether anything is written.
    pub shown: bool,
    /// Units completed.
    pub done: usize,
    /// Units in all.
    pub total: usize,
}

/// A progress line without its end: `\r  {done}/{total} {label}`.
pub open spec fn progress_line(done: nat, total: nat, label: Seq<char>) -> Seq<char> {
    "\r  "@ + dec(done) + "/"@ + dec(total) + " "@ + label
}

impl Progress {
    /// Start a progress display for `total` units.
    pub fn new(total: usize, no_color_flag: bool, no_color_env: bool, stderr_tty: bool) -> (r: Self)
        ensures
            r.shown == (total > 1 && !no_color_flag && !no_color_env && stderr_tty),
            r.done == 0,
            r.total == total,
    {
        Progress { shown: should_show(total, no_color_flag, no_color_env, stderr_tty), done: 0, total }
    }

    /// The line for `done` units.
    fn line(done: usize, total: usize, label: &str) -> (out: String)
        ensures
            out@ == progress_line(done as nat, total as nat, label@),
    {
        let mut out = "\r  ".to_owned();
        push_dec(&mut out, done as u64);
        out.append("/");
        push_dec(&mut out, total as u64);
        out.append(" ");
        out.append(label);
        out
    }

    /// Advance one unit: the line to write, `\r  3/10 hostname`. A suppressed
    /// progress writes nothing and counts nothing.
    pub fn step(&mut self, label: &str) -> (text: Option<String>)
        requires
            old(self).shown ==> old(self).done < usize::MAX,
        ensures
            final(self).shown == old(self).shown,
            final(self).total == old(self).total,
            !old(self).shown ==> text is None && final(self).done == old(self).done,
            old(self).shown ==> final(self).done == old(self).done + 1 && (text matches Some(t) && t@
                == progress_line((old(self).done + 1) as nat, old(self).total as nat, label@)),
    {
        if !self.shown {
            return None;
        }
        self.done = self.done + 1;
        Some(Self::line(self.done, self.total, label))
    }

    /// The line that ends the display.
    pub fn finish(&self) -> (text: Option<String>)
        ensures
            text is Some == self.shown,
            text matches Some(t) ==> t@ == progress_line(self.done as nat, self.total as nat, "complete"@) + "\n"@,
    {
        if !self.shown {
            return None;
        }
        let mut out = Self::line(self.done, self.total, "complete");
        out.append("\n");
        Some(out)
    }
}

} // verus!
