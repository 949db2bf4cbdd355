//! An indentation-tracking output sink used to accumulate generated
//! source text with correct nesting.

use vstd::prelude::*;

verus! {

/// Relies on `String::push`: appends one character to the string.
pub assume_specification[ String::push ](s: &mut String, c: char)
    ensures
        final(s)@ == old(s)@.push(c),
;

/// The spaces inserted at the start of a line for `n` indentation steps:
/// four spaces per step.
pub open spec fn ind_spaces(n: nat) -> Seq<char>
    decreases n,
{
    if n == 0 {
        Seq::empty()
    } else {
        ind_spaces((n - 1) as nat) + seq![' ', ' ', ' ', ' ']
    }
}

/// Whether text appended to `t` would stand at the start of a line.
pub open spec fn at_line_start(t: Seq<char>) -> bool {
    t.len() == 0 || t.last() == '\n'
}

/// The buffer after feeding the characters of `s` one by one: before a
/// character other than a newline that stands at the start of a line,
/// the current indentation is inserted; a newline never draws
/// indentation, so empty lines stay empty.
pub open spec fn emit_text(t: Seq<char>, ind: nat, s: Seq<char>) -> Seq<char>
    decreases s.len(),
{
    if s.len() == 0 {
        t
    } else {
        let c = s[0];
        let t1 = if c != '\n' && at_line_start(t) {
            t + ind_spaces(ind) + seq![c]
        } else {
            t.push(c)
        };
        emit_text(t1, ind, s.drop_first())
    }
}

/// The buffer after emitting `s` followed by a newline.
pub open spec fn emitted_line(t: Seq<char>, ind: nat, s: Seq<char>) -> Seq<char> {
    emit_text(t, ind, s.push('\n'))
}

/// Feeding `a + b` is the same as feeding `a`, then `b`.
pub proof fn lemma_emit_text_concat(t: Seq<char>, ind: nat, a: Seq<char>, b: Seq<char>)
    ensures
        emit_text(t, ind, a + b) == emit_text(emit_text(t, ind, a), ind, b),
    decreases a.len(),
{
    if a.len() == 0 {
        assert(a + b =~= b);
    } else {
        let c = a[0];
        let t1 = if c != '\n' && at_line_start(t) {
            t + ind_spaces(ind) + seq![c]
        } else {
            t.push(c)
        };
        assert((a + b)[0] == c);
        assert((a + b).drop_first() =~= a.drop_first() + b);
        lemma_emit_text_concat(t1, ind, a.drop_first(), b);
    }
}

/// A scoped accumulation buffer: text is appended at the current
/// indentation, and indentation changes follow a stack discipline.
pub struct Writer {
    content: String,
    ident_level: usize,
}

impl Writer {
    /// The text accumulated so far.
    pub closed spec fn text(&self) -> Seq<char> {
        self.content@
    }

    /// The current indentation level.
    pub closed spec fn indent(&self) -> nat {
        self.ident_level as nat
    }

    pub fn new() -> (w: Writer)
        ensures
            w.text() == Seq::<char>::empty(),
            w.indent() == 0,
    {
        Writer { content: String::new(), ident_level: 0 }
    }

    pub fn inc_ident(&mut self)
        requires
            old(self).indent() < usize::MAX,
        ensures
            final(self).text() == old(self).text(),
            final(self).indent() == old(self).indent() + 1,
    {
        self.ident_level = self.ident_level + 1;
    }

    pub fn dec_ident(&mut self)
        requires
            old(self).indent() > 0,
        ensures
            final(self).text() == old(self).text(),
            final(self).indent() == old(self).indent() - 1,
    {
        self.ident_level = self.ident_level - 1;
    }

    fn push_indent(&mut self)
        ensures
            final(self).text() == old(self).text() + ind_spaces(old(self).indent()),
            final(self).indent() == old(self).indent(),
    {
        let ghost t0 = self.content@;
        let mut j: usize = 0;
        proof {
            assert(t0 + ind_spaces(0) =~= t0);
        }
        while j < self.ident_level
            invariant
                j <= self.ident_level,
                self.ident_level == old(self).ident_level,
                self.content@ == t0 + ind_spaces(j as nat),
            decreases self.ident_level - j,
        {
            self.content.push(' ');
            self.content.push(' ');
            self.content.push(' ');
            self.content.push(' ');
            proof {
                assert(self.content@ =~= t0 + ind_spaces((j + 1) as nat));
            }
            j = j + 1;
        }
    }

    /// Feed the characters of `s`, inserting the current indentation at
    /// each line start, as `emit_text` describes.
    pub fn write(&mut self, s: &str)
        ensures
            final(self).indent() == old(self).indent(),
            final(self).text() == emit_text(old(self).text(), old(self).indent(), s@),
    {
        let n = s.unicode_len();
        let clen = self.content.as_str().unicode_len();
        let mut at_start: bool = if clen == 0 {
            true
        } else {
            let last = self.content.as_str().get_char(clen - 1);
            last == '\n'
        };
        let mut i: usize = 0;
        proof {
            assert(s@.skip(0) =~= s@);
        }
        while i < n
            invariant
                i <= n,
                n == s@.len(),
                self.ident_level == old(self).ident_level,
                at_start == at_line_start(self.content@),
                emit_text(old(self).text(), old(self).indent(), s@) == emit_text(
                    self.content@,
                    self.indent(),
                    s@.skip(i as int),
                ),
            decreases n - i,
        {
            let ghost pre = self.content@;
            let ghost rest = s@.skip(i as int);
            let c = s.get_char(i);
            proof {
                assert(rest[0] == c);
                assert(rest.drop_first() =~= s@.skip(i + 1));
            }
            if c != '\n' && at_start {
                self.push_indent();
                self.content.push(c);
                at_start = false;
                proof {
                    assert(self.content@ =~= pre + ind_spaces(old(self).indent()) + seq![c]);
                    assert(!at_line_start(self.content@));
                }
            } else {
                self.content.push(c);
                at_start = c == '\n';
            }
            i = i + 1;
        }
        proof {
            assert(s@.skip(n as int) =~= Seq::<char>::empty());
        }
    }

    /// Emit a newline; a newline draws no indentation.
    pub fn newline(&mut self)
        ensures
            final(self).indent() == old(self).indent(),
            final(self).text() == old(self).text().push('\n'),
    {
        self.content.push('\n');
    }

    /// Write one full line: `s` at the current indentation, then a newline.
    pub fn write_line(&mut self, s: &str)
        ensures
            final(self).indent() == old(self).indent(),
            final(self).text() == emitted_line(old(self).text(), old(self).indent(), s@),
    {
        let ghost t0 = self.content@;
        let ghost ind = self.indent();
        self.write(s);
        self.newline();
        proof {
            lemma_emit_text_concat(t0, ind, s@, seq!['\n']);
            assert(s@ + seq!['\n'] =~= s@.push('\n'));
            let t1 = emit_text(t0, ind, s@);
            let nlseq = seq!['\n'];
            assert(nlseq.drop_first() =~= Seq::<char>::empty());
            assert(emit_text(t1.push('\n'), ind, nlseq.drop_first()) == t1.push('\n'));
            assert(emit_text(t1, ind, nlseq) == t1.push('\n'));
        }
    }

    /// Finish and hand back the accumulated text; indentation must be
    /// balanced.
    pub fn get(self) -> (r: String)
        requires
            self.indent() == 0,
        ensures
            r@ == self.text(),
    {
        self.content
    }
}

} // verus!
