//! The job value: one unit of deferred thumbnail work, plus the verified
//! path arithmetic a worker needs (source path, thumbnail directory and
//! thumbnail file name).

use vstd::prelude::*;

use crate::text::{chars_to_string, push_range, push_str_chars, str_to_chars};

verus! {

/// Mathematical model of a job: the identifier and the two path components.
pub struct JobModel {
    pub id: nat,
    pub file_name: Seq<char>,
    pub dir: Seq<char>,
}

/// A unit of deferred work: one stored upload awaiting thumbnail generation.
///
/// A job is constructed only after the bytes of `dir/file_name` have been
/// durably written; it carries no behaviour beyond naming that file.
#[derive(Debug)]
pub struct ImagePostUploadJob {
    pub id: usize,
    pub file_name: String,
    pub dir: String,
}

impl View for ImagePostUploadJob {
    type V = JobModel;

    open spec fn view(&self) -> JobModel {
        JobModel { id: self.id as nat, file_name: self.file_name@, dir: self.dir@ }
    }
}

/// Index of the last `'.'` in `s`, or `-1` if there is none.
pub open spec fn rfind_dot(s: Seq<char>) -> int
    decreases s.len(),
{
    if s.len() == 0 {
        -1
    } else if s.last() == '.' {
        s.len() - 1
    } else {
        rfind_dot(s.drop_last())
    }
}

pub proof fn lemma_rfind_dot_range(s: Seq<char>)
    ensures
        -1 <= rfind_dot(s) < s.len(),
        rfind_dot(s) >= 0 ==> s[rfind_dot(s)] == '.',
    decreases s.len(),
{
    if s.len() > 0 && s.last() != '.' {
        lemma_rfind_dot_range(s.drop_last());
    }
}

/// The last dot is wherever a dot has none after it.
pub proof fn lemma_rfind_dot_at(s: Seq<char>, k: int)
    requires
        0 <= k < s.len(),
        s[k] == '.',
        forall|t: int| k < t < s.len() ==> s[t] != '.',
    ensures
        rfind_dot(s) == k,
    decreases s.len(),
{
    if k == s.len() - 1 {
    } else {
        assert(s.last() != '.');
        assert(s.drop_last()[k] == '.');
        lemma_rfind_dot_at(s.drop_last(), k);
    }
}

/// The extension of a file name: the characters after the last dot, provided
/// that dot is not the leading character (a name such as `.config` has none).
pub open spec fn spec_ext_opt(name: Seq<char>) -> Option<Seq<char>> {
    let d = rfind_dot(name);
    if d > 0 {
        Some(name.subrange(d + 1, name.len() as int))
    } else {
        None
    }
}

/// The stem of a file name: the characters before the last dot, or the whole
/// name when it has no extension.
pub open spec fn spec_stem(name: Seq<char>) -> Seq<char> {
    let d = rfind_dot(name);
    if d > 0 {
        name.subrange(0, d)
    } else {
        name
    }
}

/// The thumbnail's file name: `<stem>_thumb.<ext>`, with `thumb` standing in
/// for an empty stem and `jpg` for a missing extension.
pub open spec fn spec_thumb_name(name: Seq<char>) -> Seq<char> {
    (if spec_stem(name).len() == 0 {
        "thumb"@
    } else {
        spec_stem(name)
    }) + "_thumb."@ + (match spec_ext_opt(name) {
        Some(e) => e,
        None => "jpg"@,
    })
}

/// Finds the last `'.'` of `v`, matching `rfind_dot`.
pub fn rfind_dot_exec(v: &Vec<char>) -> (r: Option<usize>)
    ensures
        match r {
            Some(i) => rfind_dot(v@) == i,
            None => rfind_dot(v@) == -1,
        },
{
    let mut j: usize = v.len();
    proof {
        assert(v@.take(v@.len() as int) =~= v@);
    }
    while j > 0
        invariant
            j <= v@.len(),
            rfind_dot(v@) == rfind_dot(v@.take(j as int)),
        decreases j,
    {
        if v[j - 1] == '.' {
            proof {
                assert(v@.take(j as int).last() == v@[j - 1]);
            }
            return Some(j - 1);
        }
        proof {
            assert(v@.take(j as int).drop_last() =~= v@.take(j - 1 as int));
        }
        j = j - 1;
    }
    proof {
        assert(v@.take(0) =~= Seq::<char>::empty());
    }
    None
}

/// The extension of `name` under the library's rule (`spec_ext_opt`): the
/// characters after the last dot, unless that dot leads the name.
pub fn extension_of(name: &str) -> (r: Option<String>)
    ensures
        match r {
            Some(e) => spec_ext_opt(name@) == Some(e@),
            None => spec_ext_opt(name@) is None,
        },
{
    let chars = str_to_chars(name);
    proof {
        lemma_rfind_dot_range(name@);
    }
    match rfind_dot_exec(&chars) {
        Some(d) => {
            if d > 0 {
                let mut out: Vec<char> = Vec::new();
                push_range(&mut out, &chars, d + 1, chars.len());
                proof {
                    assert(Seq::<char>::empty() + chars@.subrange(d + 1, chars@.len() as int)
                        =~= name@.subrange(rfind_dot(name@) + 1, name@.len() as int));
                }
                Some(chars_to_string(&out))
            } else {
                None
            }
        },
        None => None,
    }
}

impl ImagePostUploadJob {
    /// The path of the stored original: `dir/file_name`.
    pub fn source_path(&self) -> (r: String)
        ensures
            r@ == self.dir@ + "/"@ + self.file_name@,
    {
        let mut out: Vec<char> = Vec::new();
        push_str_chars(&mut out, self.dir.as_str());
        push_str_chars(&mut out, "/");
        push_str_chars(&mut out, self.file_name.as_str());
        chars_to_string(&out)
    }

    /// The directory thumbnails are written under: `dir/thumbnails`.
    pub fn thumbnail_dir(&self) -> (r: String)
        ensures
            r@ == self.dir@ + "/thumbnails"@,
    {
        let mut out: Vec<char> = Vec::new();
        push_str_chars(&mut out, self.dir.as_str());
        push_str_chars(&mut out, "/thumbnails");
        chars_to_string(&out)
    }

    /// The thumbnail's file name, `<stem>_thumb.<ext>`.
    pub fn thumbnail_file_name(&self) -> (r: String)
        ensures
            r@ == spec_thumb_name(self.file_name@),
    {
        let chars = str_to_chars(self.file_name.as_str());
        let mut out: Vec<char> = Vec::new();
        let dot = rfind_dot_exec(&chars);
        proof {
            lemma_rfind_dot_range(self.file_name@);
        }
        let mut has_ext: bool = false;
        let mut dot_at: usize = 0;
        match dot {
            Some(i) => {
                if i > 0 {
                    has_ext = true;
                    dot_at = i;
                }
            },
            None => {},
        }
        if has_ext {
            push_range(&mut out, &chars, 0, dot_at);
            push_str_chars(&mut out, "_thumb.");
            push_range(&mut out, &chars, dot_at + 1, chars.len());
            proof {
                assert(chars@.subrange(dot_at + 1, chars@.len() as int) =~= self.file_name@.subrange(
                    rfind_dot(self.file_name@) + 1,
                    self.file_name@.len() as int,
                ));
            }
        } else {
            if chars.len() == 0 {
                push_str_chars(&mut out, "thumb");
            } else {
                push_range(&mut out, &chars, 0, chars.len());
                proof {
                    assert(chars@.subrange(0, chars@.len() as int) =~= self.file_name@);
                }
            }
            push_str_chars(&mut out, "_thumb.");
            push_str_chars(&mut out, "jpg");
        }
        chars_to_string(&out)
    }

    /// The full path the thumbnail is saved at:
    /// `dir/thumbnails/<stem>_thumb.<ext>`.
    pub fn thumbnail_path(&self) -> (r: String)
        ensures
            r@ == self.dir@ + "/thumbnails/"@ + spec_thumb_name(self.file_name@),
    {
        let mut out: Vec<char> = Vec::new();
        push_str_chars(&mut out, self.dir.as_str());
        push_str_chars(&mut out, "/thumbnails/");
        let name = self.thumbnail_file_name();
        push_str_chars(&mut out, name.as_str());
        chars_to_string(&out)
    }
}

} // verus!
