use crate::color::append_decimal;
use crate::color::spec_decimal;
use vstd::prelude::*;
use vstd::string::*;

verus! {

/// `String::push` of the standard library, which puts one character at the end
/// of a string and leaves the rest of it as it is.
#[verifier::external_body]
fn push_char(text: &mut String, c: char)
    ensures
        final(text)@ == old(text)@.push(c),
{
    text.push(c);
}

/// A progress bar: how far a piece of work of `total` steps has come, and what
/// the bar is drawn with.
pub struct ProgressBar {
    total: u32,
    current: u32,
    width: u32,
    prefix: String,
    suffix: String,
    fill: char,
    empty: char,
}

impl ProgressBar {
    /// The number of steps of the work.
    pub closed spec fn spec_total(&self) -> nat {
        self.total as nat
    }

    /// The number of steps that are done.
    pub closed spec fn spec_current(&self) -> nat {
        self.current as nat
    }

    /// The width of the bar, in characters.
    pub closed spec fn spec_width(&self) -> nat {
        self.width as nat
    }

    /// The text before the bar.
    pub closed spec fn spec_prefix(&self) -> Seq<char> {
        self.prefix@
    }

    /// The text that follows the bar once the work is done.
    pub closed spec fn spec_suffix(&self) -> Seq<char> {
        self.suffix@
    }

    /// The character of the part of the bar that stands for what is done.
    pub closed spec fn spec_fill(&self) -> char {
        self.fill
    }

    /// The character of the rest of the bar.
    pub closed spec fn spec_empty(&self) -> char {
        self.empty
    }

    /// No more steps are done than there are.
    #[verifier::type_invariant]
    pub closed spec fn wf(&self) -> bool {
        self.current <= self.total
    }

    /// Whether every step is done, and there was one to do.
    pub open spec fn spec_complete(&self) -> bool {
        self.spec_total() > 0 && self.spec_current() == self.spec_total()
    }

    /// The bar with `filled` of its characters filled: they stand first, and the
    /// rest of the width is empty.
    pub open spec fn spec_bar(&self, filled: nat) -> Seq<char> {
        Seq::new(
            self.spec_width(),
            |k: int|
                if k < filled {
                    self.spec_fill()
                } else {
                    self.spec_empty()
                },
        )
    }

    /// What follows the bar once the work is done: a space and the suffix, bold
    /// and green.
    pub open spec fn spec_tail(&self) -> Seq<char> {
        if self.spec_complete() {
            " \x1b[92m\x1b[1m"@ + self.spec_suffix() + "\x1b[0m"@
        } else {
            Seq::empty()
        }
    }

    /// The line that shows the bar: a carriage return, the prefix in bold, the
    /// bar in green with `filled` of its characters filled, the text `percent`
    /// with a percent sign, the steps done and the steps in all, and once the
    /// work is done the suffix.
    pub open spec fn spec_line(&self, filled: nat, percent: Seq<char>) -> Seq<char> {
        "\r\x1b[1m"@ + self.spec_prefix() + "\x1b[0m \x1b[92m"@ + self.spec_bar(filled)
            + "\x1b[0m "@ + percent + "% ("@ + spec_decimal(self.spec_current()) + "/"@
            + spec_decimal(self.spec_total()) + ")"@ + self.spec_tail()
    }

    /// No more steps are done than there are.
    pub proof fn lemma_bounded(self)
        requires
            self.wf(),
        ensures
            self.spec_current() <= self.spec_total() <= u32::MAX,
    {
    }

    /// A bar for a piece of work of `total` steps, none of them done: fifty
    /// characters wide, drawn with full and light blocks, after `prefix` and
    /// before the word `Complete`.
    pub fn new(prefix: String, total: u32) -> (bar: Self)
        ensures
            bar.wf(),
            bar.spec_total() == total,
            bar.spec_current() == 0,
            bar.spec_width() == 50,
            bar.spec_prefix() == prefix@,
            bar.spec_suffix() == "Complete"@,
            bar.spec_fill() == '\u{2588}',
            bar.spec_empty() == '\u{2591}',
    {
        Self {
            total,
            current: 0,
            width: 50,
            prefix,
            suffix: "Complete".to_owned(),
            fill: '\u{2588}',
            empty: '\u{2591}',
        }
    }

    /// Counts one more step as done, unless all are.
    pub fn increment(&mut self)
        ensures
            final(self).wf(),
            final(self).spec_current() == if old(self).spec_current() < old(self).spec_total() {
                old(self).spec_current() + 1
            } else {
                old(self).spec_total()
            },
            final(self).spec_total() == old(self).spec_total(),
            final(self).spec_width() == old(self).spec_width(),
            final(self).spec_prefix() == old(self).spec_prefix(),
            final(self).spec_suffix() == old(self).spec_suffix(),
            final(self).spec_fill() == old(self).spec_fill(),
            final(self).spec_empty() == old(self).spec_empty(),
    {
        proof {
            use_type_invariant(&*self);
        }
        if self.current < self.total {
            self.current = self.current + 1;
        }
    }

    /// The number of steps of the work.
    pub fn total(&self) -> (n: u32)
        ensures
            n == self.spec_total(),
    {
        self.total
    }

    /// The number of steps that are done.
    pub fn current(&self) -> (n: u32)
        ensures
            n == self.spec_current(),
            n <= self.spec_total(),
    {
        proof {
            use_type_invariant(self);
        }
        self.current
    }

    /// The width of the bar, in characters.
    pub fn width(&self) -> (n: u32)
        ensures
            n == self.spec_width(),
    {
        self.width
    }

    /// The text before the bar.
    pub fn prefix(&self) -> (s: &String)
        ensures
            s@ == self.spec_prefix(),
    {
        &self.prefix
    }

    /// The text that follows the bar once the work is done.
    pub fn suffix(&self) -> (s: &String)
        ensures
            s@ == self.spec_suffix(),
    {
        &self.suffix
    }

    /// The character of the part of the bar that stands for what is done.
    pub fn fill(&self) -> (c: char)
        ensures
            c == self.spec_fill(),
    {
        self.fill
    }

    /// The character of the rest of the bar.
    pub fn empty(&self) -> (c: char)
        ensures
            c == self.spec_empty(),
    {
        self.empty
    }

    /// Whether every step is done, and there was one to do.
    pub fn is_complete(&self) -> (done: bool)
        ensures
            done == self.spec_complete(),
    {
        proof {
            use_type_invariant(self);
        }
        self.total > 0 && self.current >= self.total
    }

    /// Writes the line that shows the bar.
    ///
    /// `filled_width` is how many characters of the bar stand for what is done,
    /// and `percent` is the text of the share that is done, in percent.
    pub fn render(&self, filled_width: u32, percent: &str) -> (line: String)
        ensures
            line@ == self.spec_line(filled_width as nat, percent@),
    {
        let mut line = String::new();
        line.append("\r\x1b[1m");
        line.append(self.prefix.as_str());
        line.append("\x1b[0m \x1b[92m");
        let ghost before = line@;
        let mut k: u32 = 0;
        while k < self.width
            invariant
                k <= self.width,
                line@ == before + self.spec_bar(filled_width as nat).take(k as int),
            decreases self.width - k,
        {
            if k < filled_width {
                push_char(&mut line, self.fill);
            } else {
                push_char(&mut line, self.empty);
            }
            assert(line@ =~= before + self.spec_bar(filled_width as nat).take(k + 1));
            k += 1;
        }
        assert(line@ =~= before + self.spec_bar(filled_width as nat));
        line.append("\x1b[0m ");
        line.append(percent);
        line.append("% (");
        append_decimal(&mut line, self.current);
        line.append("/");
        append_decimal(&mut line, self.total);
        line.append(")");
        if self.is_complete() {
            line.append(" \x1b[92m\x1b[1m");
            line.append(self.suffix.as_str());
            line.append("\x1b[0m");
            assert(line@ =~= self.spec_line(filled_width as nat, percent@));
        } else {
            assert(line@ =~= self.spec_line(filled_width as nat, percent@));
        }
        line
    }
}

} // verus!
