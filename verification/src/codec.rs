//! The job's wire format: a flat record with the field names `id`,
//! `file_name` and `dir`, in that order, written as one JSON object with no
//! whitespace. Producers and consumers in different processes agree on this
//! byte-exact shape. `encode_job` emits it; `decode_job` accepts exactly the
//! strings `encode_job` can produce and rejects everything else.

use vstd::prelude::*;

use crate::job::{ImagePostUploadJob, JobModel};
use crate::text::{
    all_digits, chars_to_string, dec_digits, digit_val_exec, digits_at, digits_val, is_digit_char,
    lemma_dec_digits_basic, lemma_dec_digits_inverse, lemma_digits_at_unique,
    lemma_digits_val_take_le, push_str_chars, push_usize_digits, str_to_chars,
};

verus! {

/// How one character appears inside a quoted string: quotes and backslashes
/// take a backslash escape, every other character stands for itself.
pub open spec fn esc_char(c: char) -> Seq<char> {
    if c == '"' || c == '\\' {
        seq!['\\', c]
    } else {
        seq![c]
    }
}

/// The escaped form of a whole string.
pub open spec fn esc(s: Seq<char>) -> Seq<char>
    decreases s.len(),
{
    if s.len() == 0 {
        Seq::empty()
    } else {
        esc_char(s[0]) + esc(s.skip(1))
    }
}

pub proof fn lemma_esc_one(c: char)
    ensures
        esc(seq![c]) == esc_char(c),
{
    assert(seq![c].skip(1) =~= Seq::<char>::empty());
    assert(esc(seq![c].skip(1)) =~= Seq::<char>::empty());
    assert(esc(seq![c]) =~= esc_char(seq![c][0]) + esc(seq![c].skip(1)));
    assert(esc_char(c) + Seq::<char>::empty() =~= esc_char(c));
}

pub proof fn lemma_esc_concat(a: Seq<char>, b: Seq<char>)
    ensures
        esc(a + b) == esc(a) + esc(b),
    decreases a.len(),
{
    if a.len() == 0 {
        assert(a + b =~= b);
        assert(esc(a) + esc(b) =~= esc(b));
    } else {
        assert((a + b).len() > 0);
        assert((a + b)[0] == a[0]);
        assert((a + b).skip(1) =~= a.skip(1) + b);
        lemma_esc_concat(a.skip(1), b);
        assert(esc(a + b) =~= esc_char(a[0]) + (esc(a.skip(1)) + esc(b)));
        assert(esc_char(a[0]) + (esc(a.skip(1)) + esc(b)) =~= (esc_char(a[0]) + esc(a.skip(1)))
            + esc(b));
    }
}

pub proof fn lemma_esc_push(s: Seq<char>, c: char)
    ensures
        esc(s.push(c)) == esc(s) + esc_char(c),
{
    assert(s.push(c) =~= s + seq![c]);
    lemma_esc_concat(s, seq![c]);
    lemma_esc_one(c);
}

/// Appends the escaped form of `s` to `out`.
pub fn push_escaped(out: &mut Vec<char>, s: &String)
    ensures
        final(out)@ == old(out)@ + esc(s@),
{
    let chars = str_to_chars(s.as_str());
    let n: usize = chars.len();
    proof {
        assert(s@.take(0) =~= Seq::<char>::empty());
        assert(old(out)@ + esc(s@.take(0)) =~= old(out)@);
    }
    let mut i: usize = 0;
    while i < n
        invariant
            n == s@.len(),
            chars@ == s@,
            i <= n,
            out@ == old(out)@ + esc(s@.take(i as int)),
        decreases n - i,
    {
        let c = chars[i];
        if c == '"' || c == '\\' {
            out.push('\\');
            out.push(c);
        } else {
            out.push(c);
        }
        proof {
            lemma_esc_push(s@.take(i as int), s@[i as int]);
            assert(s@.take(i + 1 as int) =~= s@.take(i as int).push(s@[i as int]));
            assert(out@ =~= old(out)@ + esc(s@.take(i + 1 as int)));
        }
        i = i + 1;
    }
    proof {
        assert(s@.take(n as int) =~= s@);
    }
}

/// A model is encodable when its identifier fits the machine word the
/// executable job carries.
pub open spec fn spec_job_wf(m: JobModel) -> bool {
    m.id <= usize::MAX
}

/// The one wire shape of a job. Field order and names are fixed so that
/// heterogeneous producers and consumers agree byte for byte.
pub open spec fn spec_encode_job(m: JobModel) -> Seq<char> {
    "{\"id\":"@ + dec_digits(m.id) + ",\"file_name\":\""@ + esc(m.file_name) + "\""@
        + ",\"dir\":\""@ + esc(m.dir) + "\""@ + "}"@
}

/// Serializes a job onto the wire; the result is exactly `spec_encode_job`
/// of the job's model.
pub fn encode_job(j: &ImagePostUploadJob) -> (r: String)
    ensures
        r@ == spec_encode_job(j@),
{
    let mut out: Vec<char> = Vec::new();
    push_str_chars(&mut out, "{\"id\":");
    push_usize_digits(&mut out, j.id);
    push_str_chars(&mut out, ",\"file_name\":\"");
    push_escaped(&mut out, &j.file_name);
    push_str_chars(&mut out, "\"");
    push_str_chars(&mut out, ",\"dir\":\"");
    push_escaped(&mut out, &j.dir);
    push_str_chars(&mut out, "\"");
    push_str_chars(&mut out, "}");
    proof {
        assert(Seq::<char>::empty() + "{\"id\":"@ =~= "{\"id\":"@);
    }
    chars_to_string(&out)
}

/// `pat` occurs at position `i` of `s`.
pub open spec fn lit_at(s: Seq<char>, i: int, pat: Seq<char>) -> bool {
    &&& 0 <= i
    &&& i + pat.len() <= s.len()
    &&& s.subrange(i, i + pat.len()) == pat
}

/// Consumes `pat` at position `i`, if and only if it sits there.
fn eat_lit(v: &Vec<char>, i: usize, pat: &str) -> (r: Option<usize>)
    requires
        i <= v@.len(),
    ensures
        match r {
            Some(j) => lit_at(v@, i as int, pat@) && j == i + pat@.len(),
            None => !lit_at(v@, i as int, pat@),
        },
{
    let p = str_to_chars(pat);
    let n: usize = p.len();
    if n > v.len() - i {
        return None;
    }
    let end: usize = i + n;
    let mut k: usize = 0;
    while k < n
        invariant
            k <= n,
            n == pat@.len(),
            p@ == pat@,
            end == i + n,
            i + n <= v@.len(),
            forall|t: int| 0 <= t < k ==> v@[i + t] == pat@[t],
        decreases n - k,
    {
        proof {
            assert(i + k < end);
        }
        if v[i + k] != p[k] {
            proof {
                if lit_at(v@, i as int, pat@) {
                    assert(v@.subrange(i as int, i + pat@.len())[k as int] == pat@[k as int]);
                }
            }
            return None;
        }
        k = k + 1;
    }
    proof {
        assert(v@.subrange(i as int, i + pat@.len()) =~= pat@);
    }
    Some(i + n)
}

/// Consumes the canonical decimal representation of a number at position
/// `i`, if and only if one that fits in `usize` sits there.
fn parse_usize(v: &Vec<char>, i: usize) -> (r: Option<(usize, usize)>)
    requires
        i <= v@.len(),
    ensures
        match r {
            Some(p) => digits_at(v@, i as int, p.0 as nat) && p.1 == i + dec_digits(
                p.0 as nat,
            ).len(),
            None => forall|n: nat| n <= usize::MAX ==> !digits_at(v@, i as int, n),
        },
{
    // The maximal digit run [i, e).
    let mut e: usize = i;
    while e < v.len() && digit_val_exec(v[e]) < 10
        invariant
            i <= e <= v@.len(),
            forall|t: int| i <= t < e ==> is_digit_char(#[trigger] v@[t]),
        decreases v@.len() - e,
    {
        e = e + 1;
    }
    proof {
        assert(all_digits(v@.subrange(i as int, e as int)));
    }
    if e == i {
        proof {
            assert forall|n: nat| n <= usize::MAX implies !digits_at(v@, i as int, n) by {
                if digits_at(v@, i as int, n) {
                    lemma_dec_digits_basic(n);
                    let d = dec_digits(n);
                    assert(v@[i as int] == v@.subrange(i as int, i + d.len())[0]);
                    assert(is_digit_char(v@[i as int]));
                }
            }
        }
        return None;
    }
    if v[i] == '0' && e > i + 1 {
        proof {
            assert forall|n: nat| n <= usize::MAX implies !digits_at(v@, i as int, n) by {
                if digits_at(v@, i as int, n) {
                    lemma_dec_digits_basic(n);
                    let d = dec_digits(n);
                    assert(d[0] == v@.subrange(i as int, i + d.len())[0]);
                    assert(d[0] == '0');
                    assert(n == 0);
                    assert(d.len() == 1);
                    assert(i + 1 < v@.len() && is_digit_char(v@[i + 1]));
                }
            }
        }
        return None;
    }
    let mut k: usize = i;
    let mut val: usize = 0;
    proof {
        assert(v@.subrange(i as int, i as int) =~= Seq::<char>::empty());
    }
    while k < e
        invariant
            i <= k <= e <= v@.len(),
            forall|t: int| i <= t < e ==> is_digit_char(#[trigger] v@[t]),
            e == v@.len() || !is_digit_char(v@[e as int]),
            val == digits_val(v@.subrange(i as int, k as int)),
            val <= usize::MAX,
        decreases e - k,
    {
        let d = digit_val_exec(v[k]);
        if val > (usize::MAX - d) / 10 {
            proof {
                let run = v@.subrange(i as int, e as int);
                assert(val * 10 + d > usize::MAX) by (nonlinear_arith)
                    requires
                        val > (usize::MAX - d) / 10,
                        0 <= d < 10,
                ;
                assert(v@.subrange(i as int, k + 1 as int).drop_last() =~= v@.subrange(
                    i as int,
                    k as int,
                ));
                assert(digits_val(v@.subrange(i as int, k + 1 as int)) == val * 10 + d);
                assert forall|n: nat| n <= usize::MAX implies !digits_at(v@, i as int, n) by {
                    if digits_at(v@, i as int, n) {
                        lemma_dec_digits_basic(n);
                        let dd = dec_digits(n);
                        // The canonical run and the maximal run coincide.
                        assert forall|t: int| 0 <= t < dd.len() implies is_digit_char(
                            #[trigger] v@[i + t],
                        ) by {
                            assert(v@[i + t] == v@.subrange(i as int, i + dd.len())[t]);
                        }
                        if i + dd.len() > e {
                            let t0 = e - i;
                            assert(is_digit_char(v@[i + t0]));
                            assert(i + t0 == e);
                            assert(false);
                        }
                        if i + dd.len() < e {
                            assert(is_digit_char(v@[i + dd.len()]));
                            assert(false);
                        }
                        assert(run =~= dd);
                        assert(digits_val(run) == n);
                        assert(v@.subrange(i as int, k + 1 as int) =~= run.take(k + 1 - i));
                        lemma_digits_val_take_le(run, k + 1 - i);
                        assert(false);
                    }
                }
            }
            return None;
        }
        proof {
            assert(val * 10 + d <= usize::MAX) by (nonlinear_arith)
                requires
                    val <= (usize::MAX - d) / 10,
                    0 <= d < 10,
            ;
            assert(v@.subrange(i as int, k + 1 as int).drop_last() =~= v@.subrange(
                i as int,
                k as int,
            ));
        }
        val = val * 10 + d;
        k = k + 1;
    }
    proof {
        let run = v@.subrange(i as int, e as int);
        assert(run.len() >= 1);
        assert(run[0] == v@[i as int]);
        if run[0] == '0' {
            assert(e == i + 1);
        }
        lemma_dec_digits_inverse(run);
        assert(dec_digits(val as nat) == run);
        assert(digits_at(v@, i as int, val as nat));
    }
    Some((val, e))
}

/// The escaped form of `name` sits at position `i` of `s`, closed by an
/// unescaped quote.
pub open spec fn str_at(s: Seq<char>, i: int, name: Seq<char>) -> bool {
    &&& 0 <= i
    &&& i + esc(name).len() + 1 <= s.len()
    &&& s.subrange(i, i + esc(name).len()) == esc(name)
    &&& s[i + esc(name).len()] == '"'
}

/// Consumes a quoted string body starting at `i` up to and including its
/// closing quote, undoing the escapes. Succeeds if and only if some `name`
/// sits there, and that `name` is unique.
fn scan_string(v: &Vec<char>, i: usize) -> (r: Option<(Vec<char>, usize)>)
    requires
        i <= v@.len(),
    ensures
        match r {
            Some(p) => {
                &&& str_at(v@, i as int, p.0@)
                &&& p.1 == i + esc(p.0@).len() + 1
                &&& forall|name: Seq<char>| str_at(v@, i as int, name) ==> name == p.0@
            },
            None => forall|name: Seq<char>| !str_at(v@, i as int, name),
        },
    decreases v@.len() - i,
{
    if i == v.len() {
        return None;
    }
    let c = v[i];
    if c == '"' {
        let cs: Vec<char> = Vec::new();
        proof {
            assert(esc(Seq::<char>::empty()) =~= Seq::<char>::empty());
            assert(v@.subrange(i as int, i as int) =~= Seq::<char>::empty());
            assert forall|name: Seq<char>| str_at(v@, i as int, name) implies name
                == Seq::<char>::empty() by {
                if name.len() > 0 {
                    assert(esc(name) == esc_char(name[0]) + esc(name.skip(1)));
                    assert(v@[i as int] == v@.subrange(i as int, i + esc(name).len())[0]);
                    assert(esc(name)[0] == esc_char(name[0])[0]);
                    assert(false);
                }
            }
        }
        return Some((cs, i + 1));
    }
    if c == '\\' {
        if i + 1 == v.len() {
            proof {
                assert forall|name: Seq<char>| !str_at(v@, i as int, name) by {
                    if str_at(v@, i as int, name) {
                        if name.len() == 0 {
                            assert(esc(name) =~= Seq::<char>::empty());
                            assert(v@[i as int] == '"');
                        } else {
                            assert(esc(name) == esc_char(name[0]) + esc(name.skip(1)));
                            assert(v@[i as int] == v@.subrange(i as int, i + esc(name).len())[0]);
                            assert(name[0] == '"' || name[0] == '\\');
                            assert(esc(name).len() >= 2);
                            assert(v@[i + 1] == v@.subrange(i as int, i + esc(name).len())[1]);
                        }
                    }
                }
            }
            return None;
        }
        let d = v[i + 1];
        if d == '"' || d == '\\' {
            match scan_string(v, i + 2) {
                Some((mut cs, j)) => {
                    let ghost tail = cs@;
                    cs.insert(0, d);
                    proof {
                        assert(cs@ =~= seq![d] + tail);
                        assert(cs@[0] == d);
                        assert(cs@.skip(1) =~= tail);
                        assert(esc(cs@) == esc_char(cs@[0]) + esc(tail));
                        assert(esc_char(d) =~= seq!['\\', d]);
                        // the escaped form sits at i
                        assert(v@.subrange(i as int, i + esc(cs@).len()) =~= esc(cs@));
                        assert forall|name: Seq<char>| str_at(v@, i as int, name) implies name
                            == cs@ by {
                            lemma_str_at_step(v@, i as int, name, d);
                            assert(str_at(v@, i + 2, name.skip(1)));
                            assert(name.skip(1) == tail);
                            assert(name =~= seq![name[0]] + name.skip(1));
                        }
                    }
                    return Some((cs, j));
                },
                None => {
                    proof {
                        assert forall|name: Seq<char>| !str_at(v@, i as int, name) by {
                            if str_at(v@, i as int, name) {
                                lemma_str_at_step(v@, i as int, name, d);
                                assert(str_at(v@, i + 2, name.skip(1)));
                            }
                        }
                    }
                    return None;
                },
            }
        } else {
            proof {
                assert forall|name: Seq<char>| !str_at(v@, i as int, name) by {
                    if str_at(v@, i as int, name) {
                        if name.len() == 0 {
                            assert(esc(name) =~= Seq::<char>::empty());
                            assert(v@[i as int] == '"');
                        } else {
                            assert(esc(name) == esc_char(name[0]) + esc(name.skip(1)));
                            assert(v@[i as int] == v@.subrange(i as int, i + esc(name).len())[0]);
                            assert(name[0] == '"' || name[0] == '\\');
                            assert(esc(name).len() >= 2);
                            assert(v@[i + 1] == v@.subrange(i as int, i + esc(name).len())[1]);
                            assert(v@[i + 1] == name[0]);
                        }
                    }
                }
            }
            return None;
        }
    }
    // c is an ordinary character
    match scan_string(v, i + 1) {
        Some((mut cs, j)) => {
            let ghost tail = cs@;
            cs.insert(0, c);
            proof {
                assert(cs@ =~= seq![c] + tail);
                assert(cs@[0] == c);
                assert(cs@.skip(1) =~= tail);
                assert(esc(cs@) == esc_char(cs@[0]) + esc(tail));
                assert(esc_char(c) =~= seq![c]);
                assert(v@.subrange(i as int, i + esc(cs@).len()) =~= esc(cs@));
                assert forall|name: Seq<char>| str_at(v@, i as int, name) implies name == cs@ by {
                    lemma_str_at_plain(v@, i as int, name, c);
                    assert(str_at(v@, i + 1, name.skip(1)));
                    assert(name.skip(1) == tail);
                    assert(name =~= seq![name[0]] + name.skip(1));
                }
            }
            Some((cs, j))
        },
        None => {
            proof {
                assert forall|name: Seq<char>| !str_at(v@, i as int, name) by {
                    if str_at(v@, i as int, name) {
                        lemma_str_at_plain(v@, i as int, name, c);
                        assert(str_at(v@, i + 1, name.skip(1)));
                    }
                }
            }
            None
        },
    }
}

/// Where the scanner sees a backslash escape `\d` at `i`, any `name` sitting
/// at `i` starts with `d` and its tail sits two places further on.
proof fn lemma_str_at_step(s: Seq<char>, i: int, name: Seq<char>, d: char)
    requires
        str_at(s, i, name),
        0 <= i,
        i + 1 < s.len(),
        s[i] == '\\',
        s[i + 1] == d,
        d == '"' || d == '\\',
    ensures
        name.len() >= 1,
        name[0] == d,
        str_at(s, i + 2, name.skip(1)),
{
    if name.len() == 0 {
        assert(esc(name) =~= Seq::<char>::empty());
        assert(s[i] == '"');
        assert(false);
    }
    assert(esc(name) == esc_char(name[0]) + esc(name.skip(1)));
    assert(s[i] == s.subrange(i, i + esc(name).len())[0]);
    assert(name[0] == '"' || name[0] == '\\');
    assert(esc_char(name[0]) =~= seq!['\\', name[0]]);
    assert(esc(name).len() == 2 + esc(name.skip(1)).len());
    assert(s[i + 1] == s.subrange(i, i + esc(name).len())[1]);
    assert(name[0] == d);
    assert forall|t: int| 0 <= t < esc(name.skip(1)).len() implies s[i + 2 + t] == esc(
        name.skip(1),
    )[t] by {
        assert(s[i + 2 + t] == s.subrange(i, i + esc(name).len())[2 + t]);
        assert(esc(name)[2 + t] == esc(name.skip(1))[t]);
    }
    assert(s.subrange(i + 2, i + 2 + esc(name.skip(1)).len()) =~= esc(name.skip(1)));
    assert(s[i + 2 + esc(name.skip(1)).len()] == s[i + esc(name).len()]);
}

/// Where the scanner sees an ordinary character `c` at `i`, any `name`
/// sitting at `i` starts with `c` and its tail sits one place further on.
proof fn lemma_str_at_plain(s: Seq<char>, i: int, name: Seq<char>, c: char)
    requires
        str_at(s, i, name),
        0 <= i,
        i < s.len(),
        s[i] == c,
        c != '"',
        c != '\\',
    ensures
        name.len() >= 1,
        name[0] == c,
        str_at(s, i + 1, name.skip(1)),
{
    if name.len() == 0 {
        assert(esc(name) =~= Seq::<char>::empty());
        assert(s[i] == '"');
        assert(false);
    }
    assert(esc(name) == esc_char(name[0]) + esc(name.skip(1)));
    assert(s[i] == s.subrange(i, i + esc(name).len())[0]);
    if name[0] == '"' || name[0] == '\\' {
        assert(esc_char(name[0]) =~= seq!['\\', name[0]]);
        assert(s[i] == '\\');
        assert(false);
    }
    assert(esc_char(name[0]) =~= seq![name[0]]);
    assert(name[0] == c);
    assert(esc(name).len() == 1 + esc(name.skip(1)).len());
    assert forall|t: int| 0 <= t < esc(name.skip(1)).len() implies s[i + 1 + t] == esc(
        name.skip(1),
    )[t] by {
        assert(s[i + 1 + t] == s.subrange(i, i + esc(name).len())[1 + t]);
        assert(esc(name)[1 + t] == esc(name.skip(1))[t]);
    }
    assert(s.subrange(i + 1, i + 1 + esc(name.skip(1)).len()) =~= esc(name.skip(1)));
    assert(s[i + 1 + esc(name.skip(1)).len()] == s[i + esc(name).len()]);
}

/// Two adjacent segments of a subrange split into their own subranges.
proof fn lemma_split(s: Seq<char>, i: int, a: Seq<char>, b: Seq<char>)
    requires
        0 <= i,
        i + a.len() + b.len() <= s.len(),
        s.subrange(i, i + a.len() + b.len()) == a + b,
    ensures
        s.subrange(i, i + a.len()) == a,
        s.subrange(i + a.len(), i + a.len() + b.len()) == b,
{
    assert forall|t: int| 0 <= t < a.len() implies s.subrange(i, i + a.len())[t] == a[t] by {
        assert(s.subrange(i, i + a.len() + b.len())[t] == (a + b)[t]);
    }
    assert(s.subrange(i, i + a.len()) =~= a);
    assert forall|t: int| 0 <= t < b.len() implies s.subrange(
        i + a.len(),
        i + a.len() + b.len(),
    )[t] == b[t] by {
        assert(s.subrange(i + a.len(), i + a.len() + b.len())[t] == s[i + a.len() + t]);
        assert(s.subrange(i, i + a.len() + b.len())[a.len() + t] == s[i + a.len() + t]);
        assert((a + b)[a.len() + t] == b[t]);
    }
    assert(s.subrange(i + a.len(), i + a.len() + b.len()) =~= b);
}

/// Two adjacent segments join into one subrange.
proof fn lemma_join(s: Seq<char>, i: int, j: int, k: int, a: Seq<char>, b: Seq<char>)
    requires
        0 <= i <= j <= k <= s.len(),
        s.subrange(i, j) == a,
        s.subrange(j, k) == b,
        j - i == a.len(),
        k - j == b.len(),
    ensures
        s.subrange(i, k) == a + b,
{
    assert forall|t: int| 0 <= t < k - i implies s.subrange(i, k)[t] == (a + b)[t] by {
        if t < a.len() {
            assert(s.subrange(i, j)[t] == a[t]);
        } else {
            assert(s.subrange(j, k)[t - a.len()] == b[t - a.len()]);
        }
    }
    assert(s.subrange(i, k) =~= a + b);
}

/// Every place the decoder looks, the encoding of `m` has the expected
/// segment: the literal frames, the canonical digits of `id`, and the two
/// quoted, escaped strings.
proof fn lemma_encode_structure(s: Seq<char>, m: JobModel)
    requires
        s == spec_encode_job(m),
    ensures
        ({
            let b1 = "{\"id\":"@.len() as int;
            let b2 = b1 + dec_digits(m.id).len();
            let b3 = b2 + ",\"file_name\":\""@.len();
            let b4 = b3 + esc(m.file_name).len();
            let b5 = b4 + 1;
            let b6 = b5 + ",\"dir\":\""@.len();
            let b7 = b6 + esc(m.dir).len();
            let b8 = b7 + 1;
            &&& lit_at(s, 0, "{\"id\":"@)
            &&& digits_at(s, b1, m.id)
            &&& lit_at(s, b2, ",\"file_name\":\""@)
            &&& str_at(s, b3, m.file_name)
            &&& lit_at(s, b5, ",\"dir\":\""@)
            &&& str_at(s, b6, m.dir)
            &&& lit_at(s, b8, "}"@)
            &&& s.len() == b8 + 1
        }),
{
    reveal_strlit("{\"id\":");
    reveal_strlit(",\"file_name\":\"");
    reveal_strlit("\"");
    reveal_strlit(",\"dir\":\"");
    reveal_strlit("}");
    reveal_strlit(",");
    let l1 = "{\"id\":"@;
    let dd = dec_digits(m.id);
    let l2 = ",\"file_name\":\""@;
    let ef = esc(m.file_name);
    let q = "\""@;
    let l3 = ",\"dir\":\""@;
    let ed = esc(m.dir);
    let r = "}"@;
    let x1 = l1 + dd;
    let x2 = x1 + l2;
    let x3 = x2 + ef;
    let x4 = x3 + q;
    let x5 = x4 + l3;
    let x6 = x5 + ed;
    let x7 = x6 + q;
    assert(s =~= x7 + r);
    assert(s.subrange(0, s.len() as int) =~= s);
    lemma_split(s, 0, x7, r);
    lemma_split(s, 0, x6, q);
    lemma_split(s, 0, x5, ed);
    lemma_split(s, 0, x4, l3);
    lemma_split(s, 0, x3, q);
    lemma_split(s, 0, x2, ef);
    lemma_split(s, 0, x1, l2);
    lemma_split(s, 0, l1, dd);
    let b1 = l1.len() as int;
    let b2 = b1 + dd.len();
    let b3 = b2 + l2.len();
    let b4 = b3 + ef.len();
    let b5 = b4 + 1;
    let b6 = b5 + l3.len();
    let b7 = b6 + ed.len();
    let b8 = b7 + 1;
    // the digit run is maximal: a comma follows it
    assert(s[b2] == s.subrange(b2, b3)[0]);
    assert(s[b2] == ',');
    // the two quotes that close the strings
    assert(s[b4] == s.subrange(b4, b4 + 1)[0]);
    assert(s[b4] == '"');
    assert(s[b7] == s.subrange(b7, b7 + 1)[0]);
    assert(s[b7] == '"');
}

/// At one position of one string, only one `name` can sit: escaping is a
/// prefix code.
proof fn lemma_str_at_unique(s: Seq<char>, i: int, a: Seq<char>, b: Seq<char>)
    requires
        str_at(s, i, a),
        str_at(s, i, b),
    ensures
        a == b,
    decreases a.len(),
{
    if a.len() == 0 {
        assert(esc(a) =~= Seq::<char>::empty());
        assert(s[i] == '"');
        if b.len() > 0 {
            assert(esc(b) == esc_char(b[0]) + esc(b.skip(1)));
            assert(s[i] == s.subrange(i, i + esc(b).len())[0]);
            assert(false);
        }
        assert(a =~= b);
    } else {
        assert(esc(a) == esc_char(a[0]) + esc(a.skip(1)));
        assert(s[i] == s.subrange(i, i + esc(a).len())[0]);
        if a[0] == '"' || a[0] == '\\' {
            assert(esc_char(a[0]) =~= seq!['\\', a[0]]);
            assert(s[i] == '\\');
            assert(s[i + 1] == s.subrange(i, i + esc(a).len())[1]);
            let d = s[i + 1];
            assert(d == a[0]);
            lemma_str_at_step(s, i, a, d);
            lemma_str_at_step(s, i, b, d);
            lemma_str_at_unique(s, i + 2, a.skip(1), b.skip(1));
            assert(a =~= seq![a[0]] + a.skip(1));
            assert(b =~= seq![b[0]] + b.skip(1));
        } else {
            assert(esc_char(a[0]) =~= seq![a[0]]);
            let c = s[i];
            assert(c == a[0]);
            lemma_str_at_plain(s, i, a, c);
            lemma_str_at_plain(s, i, b, c);
            lemma_str_at_unique(s, i + 1, a.skip(1), b.skip(1));
            assert(a =~= seq![a[0]] + a.skip(1));
            assert(b =~= seq![b[0]] + b.skip(1));
        }
    }
}

/// The wire format is injective: two jobs with the same encoding are the
/// same job. Together with the decoder's contract this gives the round
/// trip: decoding what `encode_job` produced recovers the identical `id`,
/// `file_name` and `dir`.
pub proof fn lemma_encode_injective(m1: JobModel, m2: JobModel)
    requires
        spec_encode_job(m1) == spec_encode_job(m2),
    ensures
        m1 == m2,
{
    let s = spec_encode_job(m1);
    lemma_encode_structure(s, m1);
    lemma_encode_structure(s, m2);
    let b1 = "{\"id\":"@.len() as int;
    lemma_digits_at_unique(s, b1, m1.id, m2.id);
    let b3 = b1 + dec_digits(m1.id).len() + ",\"file_name\":\""@.len();
    lemma_str_at_unique(s, b3, m1.file_name, m2.file_name);
    let b6 = b3 + esc(m1.file_name).len() + 1 + ",\"dir\":\""@.len();
    lemma_str_at_unique(s, b6, m1.dir, m2.dir);
}

/// Parses the wire form of a job. Returns the job whose encoding is exactly
/// `s`, and `None` when `s` is the encoding of no job.
pub fn decode_job(s: &str) -> (r: Option<ImagePostUploadJob>)
    ensures
        match r {
            Some(j) => s@ == spec_encode_job(j@),
            None => forall|m: JobModel| spec_job_wf(m) ==> s@ != spec_encode_job(m),
        },
{
    let v = str_to_chars(s);
    let i1 = match eat_lit(&v, 0, "{\"id\":") {
        Some(j) => j,
        None => {
            proof {
                assert forall|m: JobModel| spec_job_wf(m) implies s@ != spec_encode_job(m) by {
                    if s@ == spec_encode_job(m) {
                        lemma_encode_structure(s@, m);
                    }
                }
            }
            return None;
        },
    };
    let (id, i2) = match parse_usize(&v, i1) {
        Some(p) => p,
        None => {
            proof {
                assert forall|m: JobModel| spec_job_wf(m) implies s@ != spec_encode_job(m) by {
                    if s@ == spec_encode_job(m) {
                        lemma_encode_structure(s@, m);
                    }
                }
            }
            return None;
        },
    };
    let i3 = match eat_lit(&v, i2, ",\"file_name\":\"") {
        Some(j) => j,
        None => {
            proof {
                assert forall|m: JobModel| spec_job_wf(m) implies s@ != spec_encode_job(m) by {
                    if s@ == spec_encode_job(m) {
                        lemma_encode_structure(s@, m);
                        lemma_digits_at_unique(s@, i1 as int, id as nat, m.id);
                    }
                }
            }
            return None;
        },
    };
    let (fname, i4) = match scan_string(&v, i3) {
        Some(p) => p,
        None => {
            proof {
                assert forall|m: JobModel| spec_job_wf(m) implies s@ != spec_encode_job(m) by {
                    if s@ == spec_encode_job(m) {
                        lemma_encode_structure(s@, m);
                        lemma_digits_at_unique(s@, i1 as int, id as nat, m.id);
                    }
                }
            }
            return None;
        },
    };
    let i5 = match eat_lit(&v, i4, ",\"dir\":\"") {
        Some(j) => j,
        None => {
            proof {
                assert forall|m: JobModel| spec_job_wf(m) implies s@ != spec_encode_job(m) by {
                    if s@ == spec_encode_job(m) {
                        lemma_encode_structure(s@, m);
                        lemma_digits_at_unique(s@, i1 as int, id as nat, m.id);
                    }
                }
            }
            return None;
        },
    };
    let (dname, i6) = match scan_string(&v, i5) {
        Some(p) => p,
        None => {
            proof {
                assert forall|m: JobModel| spec_job_wf(m) implies s@ != spec_encode_job(m) by {
                    if s@ == spec_encode_job(m) {
                        lemma_encode_structure(s@, m);
                        lemma_digits_at_unique(s@, i1 as int, id as nat, m.id);
                    }
                }
            }
            return None;
        },
    };
    let i7 = match eat_lit(&v, i6, "}") {
        Some(j) => j,
        None => {
            proof {
                assert forall|m: JobModel| spec_job_wf(m) implies s@ != spec_encode_job(m) by {
                    if s@ == spec_encode_job(m) {
                        lemma_encode_structure(s@, m);
                        lemma_digits_at_unique(s@, i1 as int, id as nat, m.id);
                    }
                }
            }
            return None;
        },
    };
    if i7 != v.len() {
        proof {
            assert forall|m: JobModel| spec_job_wf(m) implies s@ != spec_encode_job(m) by {
                if s@ == spec_encode_job(m) {
                    lemma_encode_structure(s@, m);
                    lemma_digits_at_unique(s@, i1 as int, id as nat, m.id);
                }
            }
        }
        return None;
    }
    let file_name = chars_to_string(&fname);
    let dir = chars_to_string(&dname);
    let job = ImagePostUploadJob { id, file_name, dir };
    proof {
        reveal_strlit("\"");
        let b4 = i3 + esc(fname@).len();
        assert(s@.subrange(b4 as int, b4 + 1) =~= "\""@);
        let b7 = i5 + esc(dname@).len();
        assert(s@.subrange(b7 as int, b7 + 1) =~= "\""@);
        lemma_join(s@, 0, i1 as int, i2 as int, "{\"id\":"@, dec_digits(id as nat));
        lemma_join(s@, 0, i2 as int, i3 as int, "{\"id\":"@ + dec_digits(id as nat),
            ",\"file_name\":\""@);
        lemma_join(s@, 0, i3 as int, b4, "{\"id\":"@ + dec_digits(id as nat)
            + ",\"file_name\":\""@, esc(fname@));
        lemma_join(s@, 0, b4, b4 + 1, "{\"id\":"@ + dec_digits(id as nat) + ",\"file_name\":\""@
            + esc(fname@), "\""@);
        lemma_join(s@, 0, b4 + 1, i5 as int, "{\"id\":"@ + dec_digits(id as nat)
            + ",\"file_name\":\""@ + esc(fname@) + "\""@, ",\"dir\":\""@);
        lemma_join(s@, 0, i5 as int, b7, "{\"id\":"@ + dec_digits(id as nat)
            + ",\"file_name\":\""@ + esc(fname@) + "\""@ + ",\"dir\":\""@, esc(dname@));
        lemma_join(s@, 0, b7, b7 + 1, "{\"id\":"@ + dec_digits(id as nat) + ",\"file_name\":\""@
            + esc(fname@) + "\""@ + ",\"dir\":\""@ + esc(dname@), "\""@);
        lemma_join(s@, 0, b7 + 1, i7 as int, "{\"id\":"@ + dec_digits(id as nat)
            + ",\"file_name\":\""@ + esc(fname@) + "\""@ + ",\"dir\":\""@ + esc(dname@) + "\""@,
            "}"@);
        assert(s@.subrange(0, i7 as int) =~= s@);
        assert(s@ == spec_encode_job(job@));
    }
    Some(job)
}

} // verus!
