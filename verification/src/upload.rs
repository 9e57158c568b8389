//! The compute side of the upload handler: which uploads are accepted
//! (declared content type and file extension), and the fresh storage name a
//! stored file receives. Reading the multipart field, writing the bytes and
//! inserting the database row stay outside; they hand these functions plain
//! strings.

use vstd::prelude::*;

use rand::Rng;

use crate::job::{lemma_rfind_dot_at, rfind_dot, spec_ext_opt};
use crate::text::{chars_to_string, push_str_chars, str_to_chars};
use vstd::string::StringExecFns;

verus! {

/// ASCII lowercasing of one character; everything but `A`..`Z` unchanged.
pub open spec fn lower_char(c: char) -> char {
    if c == 'A' {
        'a'
    } else if c == 'B' {
        'b'
    } else if c == 'C' {
        'c'
    } else if c == 'D' {
        'd'
    } else if c == 'E' {
        'e'
    } else if c == 'F' {
        'f'
    } else if c == 'G' {
        'g'
    } else if c == 'H' {
        'h'
    } else if c == 'I' {
        'i'
    } else if c == 'J' {
        'j'
    } else if c == 'K' {
        'k'
    } else if c == 'L' {
        'l'
    } else if c == 'M' {
        'm'
    } else if c == 'N' {
        'n'
    } else if c == 'O' {
        'o'
    } else if c == 'P' {
        'p'
    } else if c == 'Q' {
        'q'
    } else if c == 'R' {
        'r'
    } else if c == 'S' {
        's'
    } else if c == 'T' {
        't'
    } else if c == 'U' {
        'u'
    } else if c == 'V' {
        'v'
    } else if c == 'W' {
        'w'
    } else if c == 'X' {
        'x'
    } else if c == 'Y' {
        'y'
    } else if c == 'Z' {
        'z'
    } else {
        c
    }
}

pub open spec fn lower_seq(s: Seq<char>) -> Seq<char> {
    s.map_values(|c: char| lower_char(c))
}

/// The extensions accepted for upload, compared without regard to ASCII
/// case.
pub open spec fn spec_allowed_ext(e: Seq<char>) -> bool {
    ||| lower_seq(e) == "jpg"@
    ||| lower_seq(e) == "jpeg"@
    ||| lower_seq(e) == "png"@
    ||| lower_seq(e) == "gif"@
    ||| lower_seq(e) == "bmp"@
    ||| lower_seq(e) == "webp"@
}

/// A declared content type names an image when it starts with `image/`.
pub open spec fn spec_image_content_type(ct: Seq<char>) -> bool {
    ct.len() >= "image/"@.len() && ct.take("image/"@.len() as int) == "image/"@
}

fn lower_char_exec(c: char) -> (r: char)
    ensures
        r == lower_char(c),
{
    if c == 'A' {
        'a'
    } else if c == 'B' {
        'b'
    } else if c == 'C' {
        'c'
    } else if c == 'D' {
        'd'
    } else if c == 'E' {
        'e'
    } else if c == 'F' {
        'f'
    } else if c == 'G' {
        'g'
    } else if c == 'H' {
        'h'
    } else if c == 'I' {
        'i'
    } else if c == 'J' {
        'j'
    } else if c == 'K' {
        'k'
    } else if c == 'L' {
        'l'
    } else if c == 'M' {
        'm'
    } else if c == 'N' {
        'n'
    } else if c == 'O' {
        'o'
    } else if c == 'P' {
        'p'
    } else if c == 'Q' {
        'q'
    } else if c == 'R' {
        'r'
    } else if c == 'S' {
        's'
    } else if c == 'T' {
        't'
    } else if c == 'U' {
        'u'
    } else if c == 'V' {
        'v'
    } else if c == 'W' {
        'w'
    } else if c == 'X' {
        'x'
    } else if c == 'Y' {
        'y'
    } else if c == 'Z' {
        'z'
    } else {
        c
    }
}

/// Decides, without regard to case, whether `ext` is on the allow list.
pub fn is_allowed_extension(ext: &str) -> (b: bool)
    ensures
        b == spec_allowed_ext(ext@),
{
    let chars = str_to_chars(ext);
    let n: usize = chars.len();
    let mut low: Vec<char> = Vec::new();
    let mut i: usize = 0;
    while i < n
        invariant
            i <= n,
            n == ext@.len(),
            chars@ == ext@,
            low@ == lower_seq(ext@.take(i as int)),
        decreases n - i,
    {
        low.push(lower_char_exec(chars[i]));
        proof {
            assert(lower_seq(ext@.take(i + 1 as int)) =~= lower_seq(ext@.take(i as int)).push(
                lower_char(ext@[i as int]),
            ));
        }
        i = i + 1;
    }
    proof {
        assert(ext@.take(n as int) =~= ext@);
    }
    let l = chars_to_string(&low);
    let b = str_eq_lit(&l, "jpg") || str_eq_lit(&l, "jpeg") || str_eq_lit(&l, "png")
        || str_eq_lit(&l, "gif") || str_eq_lit(&l, "bmp") || str_eq_lit(&l, "webp");
    b
}

/// String equality against a pattern, by character views.
fn str_eq_lit(l: &String, pat: &str) -> (b: bool)
    ensures
        b == (l@ == pat@),
{
    let p = String::from_str(pat);
    l.eq(&p)
}

/// Decides whether the declared content type names an image.
pub fn is_image_content_type(ct: &str) -> (b: bool)
    ensures
        b == spec_image_content_type(ct@),
{
    let chars = str_to_chars(ct);
    let pat = str_to_chars("image/");
    let n: usize = pat.len();
    if chars.len() < n {
        return false;
    }
    let mut k: usize = 0;
    while k < n
        invariant
            k <= n,
            n == "image/"@.len(),
            pat@ == "image/"@,
            chars@ == ct@,
            n <= ct@.len(),
            forall|t: int| 0 <= t < k ==> ct@[t] == "image/"@[t],
        decreases n - k,
    {
        if chars[k] != pat[k] {
            proof {
                if spec_image_content_type(ct@) {
                    assert(ct@.take(n as int)[k as int] == "image/"@[k as int]);
                }
            }
            return false;
        }
        k = k + 1;
    }
    proof {
        assert(ct@.take(n as int) =~= "image/"@);
    }
    true
}

/// The handler's acceptance decision: the upload is taken exactly when the
/// declared content type names an image and the extension is allowed.
pub fn accept_upload(content_type: &str, extension: &str) -> (b: bool)
    ensures
        b == (spec_image_content_type(content_type@) && spec_allowed_ext(extension@)),
{
    let ct = is_image_content_type(content_type);
    let ex = is_allowed_extension(extension);
    ct && ex
}

/// An ASCII letter or digit.
pub open spec fn is_ascii_alnum(c: char) -> bool {
    ||| ('a' as u32) <= (c as u32) && (c as u32) <= ('z' as u32)
    ||| ('A' as u32) <= (c as u32) && (c as u32) <= ('Z' as u32)
    ||| ('0' as u32) <= (c as u32) && (c as u32) <= ('9' as u32)
}

/// Relies on rand's `Alphanumeric` distribution: every sampled byte is one
/// of `A`..`Z`, `a`..`z`, `0`..`9`, so the collected string holds 16 ASCII
/// alphanumeric characters. Which ones come out is chance; nothing more is
/// assumed.
#[verifier::external_body]
fn random_tag16() -> (r: String)
    ensures
        r@.len() == 16,
        forall|i: int| 0 <= i < r@.len() ==> is_ascii_alnum(#[trigger] r@[i]),
{
    rand::thread_rng().sample_iter(&rand::distributions::Alphanumeric).take(16).map(
        char::from,
    ).collect()
}

/// A fresh collision-resistant storage name: sixteen random alphanumeric
/// characters, a dot, and the original extension. Whenever the extension
/// itself carries no dot, the generated name's extension is exactly it.
pub fn fresh_file_name(ext: &str) -> (r: String)
    ensures
        r@.len() == 17 + ext@.len(),
        r@[16] == '.',
        forall|i: int| 0 <= i < 16 ==> is_ascii_alnum(#[trigger] r@[i]),
        r@.subrange(17, r@.len() as int) == ext@,
        (forall|i: int| 0 <= i < ext@.len() ==> ext@[i] != '.') ==> spec_ext_opt(r@)
            == Some(ext@),
{
    let tag = random_tag16();
    let mut out: Vec<char> = Vec::new();
    push_str_chars(&mut out, tag.as_str());
    push_str_chars(&mut out, ".");
    push_str_chars(&mut out, ext);
    proof {
        reveal_strlit(".");
        let r = tag@ + "."@ + ext@;
        assert(r[16] == '.');
        assert(r.subrange(17, r.len() as int) =~= ext@);
        if forall|i: int| 0 <= i < ext@.len() ==> ext@[i] != '.' {
            assert forall|t: int| 16 < t < r.len() implies r[t] != '.' by {
                if t >= 17 {
                    assert(r[t] == ext@[t - 17]);
                }
            }
            lemma_rfind_dot_at(r, 16);
            assert(spec_ext_opt(r) == Some(r.subrange(17, r.len() as int)));
        }
        assert(Seq::<char>::empty() + tag@ =~= tag@);
    }
    chars_to_string(&out)
}

} // verus!
