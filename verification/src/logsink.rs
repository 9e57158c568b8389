//! The single-writer log sink. N workers hand whole lines to one owner of
//! the output stream; the owner appends them in arrival order, one line plus
//! one terminator at a time. Because every append is one whole line, no two
//! lines ever interleave character by character, and the file holds exactly
//! as many lines as were handed over.

use vstd::prelude::*;

use crate::text::{chars_to_string, push_str_chars};

verus! {

/// The sink's state: the lines appended so far, in arrival order, and
/// whether the input side is still open.
pub struct LogSink {
    lines: Vec<String>,
    open: bool,
}

/// The rendered file: each line followed by one newline.
pub open spec fn spec_render(lines: Seq<Seq<char>>) -> Seq<char>
    decreases lines.len(),
{
    if lines.len() == 0 {
        Seq::empty()
    } else {
        spec_render(lines.drop_last()) + lines.last() + "\n"@
    }
}

/// Occurrences of `c` in `s`.
pub open spec fn count_char(s: Seq<char>, c: char) -> int
    decreases s.len(),
{
    if s.len() == 0 {
        0
    } else {
        count_char(s.drop_last(), c) + if s.last() == c {
            1int
        } else {
            0int
        }
    }
}

pub proof fn lemma_count_char_concat(a: Seq<char>, b: Seq<char>, c: char)
    ensures
        count_char(a + b, c) == count_char(a, c) + count_char(b, c),
    decreases b.len(),
{
    if b.len() == 0 {
        assert(a + b =~= a);
    } else {
        assert((a + b).drop_last() =~= a + b.drop_last());
        assert((a + b).last() == b.last());
        lemma_count_char_concat(a, b.drop_last(), c);
    }
}

/// Appending one line appends one intact contiguous segment: the new file
/// is the old file, then the line, then its terminator. Nothing written
/// earlier moves, and the line is never split.
pub proof fn lemma_render_append(lines: Seq<Seq<char>>, l: Seq<char>)
    ensures
        spec_render(lines.push(l)) == spec_render(lines) + l + "\n"@,
{
    assert(lines.push(l).drop_last() =~= lines);
    assert(lines.push(l).last() == l);
}

/// A line that carries no terminator of its own.
pub open spec fn line_ok(l: Seq<char>) -> bool {
    forall|i: int| 0 <= i < l.len() ==> l[i] != '\n'
}

pub proof fn lemma_line_ok_count(l: Seq<char>)
    requires
        line_ok(l),
    ensures
        count_char(l, '\n') == 0,
    decreases l.len(),
{
    if l.len() > 0 {
        assert(line_ok(l.drop_last()));
        lemma_line_ok_count(l.drop_last());
    }
}

/// Sending K lines yields a file of exactly K lines: as long as no line
/// carries its own terminator, the rendered file has one newline per line
/// handed over.
pub proof fn lemma_render_line_count(lines: Seq<Seq<char>>)
    requires
        forall|i: int| 0 <= i < lines.len() ==> line_ok(#[trigger] lines[i]),
    ensures
        count_char(spec_render(lines), '\n') == lines.len(),
    decreases lines.len(),
{
    reveal_strlit("\n");
    if lines.len() == 0 {
    } else {
        let dl = lines.drop_last();
        assert(forall|i: int| 0 <= i < dl.len() ==> line_ok(#[trigger] dl[i]));
        lemma_render_line_count(dl);
        lemma_count_char_concat(spec_render(dl), lines.last(), '\n');
        lemma_count_char_concat(spec_render(dl) + lines.last(), "\n"@, '\n');
        lemma_line_ok_count(lines.last());
        assert("\n"@.drop_last() =~= Seq::<char>::empty());
        assert(count_char("\n"@.drop_last(), '\n') == 0);
        assert("\n"@.last() == '\n');
        assert(count_char("\n"@, '\n') == 1);
        assert(spec_render(lines) =~= (spec_render(dl) + lines.last()) + "\n"@);
    }
}

/// Index of the first newline in `s`, or `s.len()` if there is none.
pub open spec fn find_nl(s: Seq<char>) -> int
    decreases s.len(),
{
    if s.len() == 0 {
        0
    } else if s[0] == '\n' {
        0
    } else {
        1 + find_nl(s.skip(1))
    }
}

/// The file read back as lines: split at each newline.
pub open spec fn spec_split_lines(s: Seq<char>) -> Seq<Seq<char>>
    decreases s.len(),
{
    if s.len() == 0 {
        Seq::empty()
    } else {
        let k = find_nl(s);
        if 0 <= k < s.len() {
            seq![s.take(k)] + spec_split_lines(s.skip(k + 1))
        } else {
            seq![s]
        }
    }
}

pub proof fn lemma_render_concat(a: Seq<Seq<char>>, b: Seq<Seq<char>>)
    ensures
        spec_render(a + b) == spec_render(a) + spec_render(b),
    decreases b.len(),
{
    if b.len() == 0 {
        assert(a + b =~= a);
        assert(spec_render(a) + spec_render(b) =~= spec_render(a));
    } else {
        assert((a + b).drop_last() =~= a + b.drop_last());
        assert((a + b).last() == b.last());
        lemma_render_concat(a, b.drop_last());
        assert(spec_render(a + b) =~= spec_render(a) + (spec_render(b.drop_last()) + b.last()
            + "\n"@));
    }
}

/// The first newline of `line + '\n' + rest` closes exactly the line.
pub proof fn lemma_find_nl_prefix(a: Seq<char>, b: Seq<char>)
    requires
        line_ok(a),
    ensures
        find_nl(a + seq!['\n'] + b) == a.len(),
    decreases a.len(),
{
    let s = a + seq!['\n'] + b;
    if a.len() == 0 {
        assert(s[0] == '\n');
    } else {
        assert(s[0] == a[0]);
        assert(s.skip(1) =~= a.skip(1) + seq!['\n'] + b);
        assert(line_ok(a.skip(1)));
        lemma_find_nl_prefix(a.skip(1), b);
    }
}

/// No loss and no interleaving, in full: reading the rendered file back by
/// splitting at newlines recovers exactly the lines that were handed over,
/// in arrival order — K lines in, K intact lines out.
pub proof fn lemma_render_split_inverse(lines: Seq<Seq<char>>)
    requires
        forall|i: int| 0 <= i < lines.len() ==> line_ok(#[trigger] lines[i]),
    ensures
        spec_split_lines(spec_render(lines)) == lines,
    decreases lines.len(),
{
    reveal_strlit("\n");
    if lines.len() == 0 {
        assert(spec_split_lines(spec_render(lines)) =~= lines);
    } else {
        let l0 = lines[0];
        let rest = lines.skip(1);
        assert(lines =~= seq![l0] + rest);
        lemma_render_concat(seq![l0], rest);
        assert(seq![l0].drop_last() =~= Seq::<Seq<char>>::empty());
        assert(spec_render(seq![l0].drop_last()) =~= Seq::<char>::empty());
        assert(spec_render(seq![l0]) =~= l0 + "\n"@);
        let s = spec_render(lines);
        assert("\n"@ =~= seq!['\n']);
        assert(s =~= l0 + seq!['\n'] + spec_render(rest));
        assert(line_ok(l0));
        lemma_find_nl_prefix(l0, spec_render(rest));
        let k = find_nl(s);
        assert(k == l0.len());
        assert(s.len() == l0.len() + 1 + spec_render(rest).len());
        assert(0 <= k < s.len());
        assert(s.take(k) =~= l0);
        assert(s.skip(k + 1) =~= spec_render(rest));
        assert(forall|i: int| 0 <= i < rest.len() ==> line_ok(#[trigger] rest[i]));
        lemma_render_split_inverse(rest);
        assert(spec_split_lines(s) =~= seq![l0] + rest);
    }
}

impl LogSink {
    /// The lines appended so far, in arrival order.
    pub closed spec fn lines_log(&self) -> Seq<Seq<char>> {
        self.lines@.map_values(|s: String| s@)
    }

    pub closed spec fn is_open(&self) -> bool {
        self.open
    }

    /// A fresh sink owning an empty stream.
    pub fn new() -> (s: LogSink)
        ensures
            s.is_open(),
            s.lines_log() == Seq::<Seq<char>>::empty(),
    {
        let s = LogSink { lines: Vec::new(), open: true };
        proof {
            assert(s.lines_log() =~= Seq::<Seq<char>>::empty());
        }
        s
    }

    /// Appends one whole line at the end of the stream. Only the single
    /// owner calls this, and only while the sink is open — the shutdown
    /// order guarantees workers never outlive it.
    pub fn append(&mut self, line: String)
        requires
            old(self).is_open(),
        ensures
            final(self).is_open(),
            final(self).lines_log() == old(self).lines_log().push(line@),
    {
        let ghost l = line@;
        let ghost old_lines = self.lines_log();
        self.lines.push(line);
        proof {
            assert(self.lines_log() =~= old_lines.push(l));
        }
    }

    /// Drains a batch in its given order: the stream afterwards is the old
    /// stream followed by the batch, line for line.
    pub fn append_all(&mut self, batch: Vec<String>)
        requires
            old(self).is_open(),
        ensures
            final(self).is_open(),
            final(self).lines_log() == old(self).lines_log() + batch@.map_values(
                |s: String| s@,
            ),
    {
        let ghost bviews = batch@.map_values(|s: String| s@);
        let n: usize = batch.len();
        let mut k: usize = 0;
        let mut rest = batch;
        proof {
            assert(self.lines_log() + bviews.take(0) =~= self.lines_log());
        }
        while k < n
            invariant
                k <= n,
                n == bviews.len(),
                rest@.map_values(|s: String| s@) =~= bviews.skip(k as int),
                rest@.len() == n - k,
                self.is_open(),
                self.lines_log() == old(self).lines_log() + bviews.take(k as int),
            decreases n - k,
        {
            let ghost prev = rest@;
            let line = rest.remove(0);
            proof {
                assert(line == prev[0]);
                assert(prev.map_values(|s: String| s@) =~= bviews.skip(k as int));
                assert(line@ == prev.map_values(|s: String| s@)[0]);
                assert(bviews.skip(k as int)[0] == bviews[k as int]);
                assert(rest@ =~= prev.skip(1));
                let k1 = k + 1 as int;
                assert forall|t: int| 0 <= t < rest@.len() implies #[trigger] bviews.skip(k1)[t]
                    == rest@.map_values(|s: String| s@)[t] by {
                    assert(rest@[t] == prev[t + 1]);
                    assert(prev.map_values(|s: String| s@)[t + 1] == bviews.skip(
                        k as int,
                    )[t + 1]);
                }
                assert(rest@.map_values(|s: String| s@) =~= bviews.skip(k1));
            }
            self.append(line);
            proof {
                assert(bviews.take(k + 1 as int) =~= bviews.take(k as int).push(bviews[k as int]));
                assert(line@ == bviews[k as int]);
                assert(self.lines_log() =~= old(self).lines_log() + bviews.take(k + 1 as int));
            }
            k = k + 1;
        }
        proof {
            assert(bviews.take(n as int) =~= bviews);
        }
    }

    /// Closes the input side; closing twice changes nothing.
    pub fn close(&mut self)
        requires
            true,
        ensures
            !final(self).is_open(),
            final(self).lines_log() == old(self).lines_log(),
            !old(self).is_open() ==> *final(self) == *old(self),
    {
        self.open = false;
    }

    /// The whole stream as one string, each line newline-terminated.
    pub fn render(&self) -> (r: String)
        ensures
            r@ == spec_render(self.lines_log()),
    {
        let ghost views = self.lines_log();
        let mut out: Vec<char> = Vec::new();
        let n: usize = self.lines.len();
        let mut k: usize = 0;
        proof {
            assert(spec_render(views.take(0)) =~= Seq::<char>::empty());
            assert(out@ =~= spec_render(views.take(0)));
        }
        while k < n
            invariant
                k <= n,
                n == self.lines@.len(),
                views == self.lines_log(),
                views.len() == n,
                out@ == spec_render(views.take(k as int)),
            decreases n - k,
        {
            push_str_chars(&mut out, self.lines[k].as_str());
            push_str_chars(&mut out, "\n");
            proof {
                assert(views.take(k + 1 as int).drop_last() =~= views.take(k as int));
                assert(views.take(k + 1 as int).last() == views[k as int]);
                assert(views[k as int] == self.lines@[k as int]@);
                assert(out@ =~= spec_render(views.take(k + 1 as int)));
            }
            k = k + 1;
        }
        proof {
            assert(views.take(n as int) =~= views);
        }
        chars_to_string(&out)
    }

    /// How many lines the stream holds.
    pub fn line_count(&self) -> (n: usize)
        ensures
            n == self.lines_log().len(),
    {
        self.lines.len()
    }
}

} // verus!
