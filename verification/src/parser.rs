use vstd::prelude::*;

use crate::error::ParseError;
use crate::model::{opt_str, FileSemanticIndex, LanguageId};
use crate::text::chars_of;

verus! {

/// A source file to parse: its path and its text.
#[derive(Debug, Clone, Copy)]
pub struct ParseInput<'a> {
    pub path: &'a str,
    pub source: &'a str,
}

/// A parser that turns the source files of one language into semantic indexes.
pub trait LanguageParser {
    /// Whether the parser takes the file at `path`.
    spec fn accepts(&self, path: Seq<char>) -> bool;

    fn language(&self) -> LanguageId;

    fn parser_version(&self) -> &'static str;

    /// Whether the parser takes the file at `path`.
    fn supports_path(&self, path: &str) -> (r: bool)
        ensures
            r == self.accepts(path@),
    ;

    fn parse(&self, input: ParseInput<'_>) -> Result<FileSemanticIndex, ParseError>;
}

/// The final component of `path`, as `std::path::Path::file_name` finds it.
pub uninterp spec fn path_file_name(path: Seq<char>) -> Option<Seq<char>>;

/// Calls `std::path::Path::file_name` on `path`. Trusted: the result is the name above applied
/// to the path's text (a component of a path made from a `&str` is valid UTF-8, so the lossy
/// conversion keeps it whole).
#[verifier::external_body]
fn file_name(path: &str) -> (r: Option<String>)
    ensures
        opt_str(r) == path_file_name(path@),
{
    let name = std::path::Path::new(path).file_name()?;
    Some(name.to_string_lossy().into_owned())
}

/// The position of the last `.` in `s`, if there is one.
pub open spec fn last_dot(s: Seq<char>) -> Option<int>
    decreases s.len(),
{
    if s.len() == 0 {
        None
    } else if s.last() == '.' {
        Some(s.len() - 1)
    } else {
        last_dot(s.drop_last())
    }
}

/// The extension of a file name: what follows its last `.`, unless it has no `.` or its only
/// `.` is the first character.
pub open spec fn name_extension(name: Seq<char>) -> Option<Seq<char>> {
    match last_dot(name) {
        Some(k) => if k == 0 {
            None
        } else {
            Some(name.skip(k + 1))
        },
        None => None,
    }
}

/// The extension of the file at `path`.
pub open spec fn path_extension(path: Seq<char>) -> Option<Seq<char>> {
    match path_file_name(path) {
        Some(name) => name_extension(name),
        None => None,
    }
}

/// The extension of the file at `path`.
pub fn extension(path: &str) -> (r: Option<String>)
    ensures
        opt_str(r) == path_extension(path@),
{
    let name = match file_name(path) {
        Some(n) => n,
        None => return None,
    };
    let cs = chars_of(name.as_str());
    let n = cs.len();
    let mut k = n;
    assert(name@.take(n as int) =~= name@);
    while k > 0 && cs[k - 1] != '.'
        invariant
            cs@ == name@,
            n == cs@.len(),
            0 <= k <= n,
            forall|j: int| k <= j < n ==> cs@[j] != '.',
            last_dot(name@) == last_dot(name@.take(k as int)),
        decreases k,
    {
        proof {
            let t = name@.take(k as int);
            assert(t.drop_last() =~= name@.take(k - 1));
            assert(t.last() == cs@[k - 1]);
        }
        k = k - 1;
    }
    if k == 0 {
        assert(name@.take(0) =~= Seq::<char>::empty());
        return None;
    }
    assert(name@.take(k as int).last() == '.');
    if k == 1 {
        return None;
    }
    let mut out = String::new();
    let mut i = k;
    while i < n
        invariant
            cs@ == name@,
            n == cs@.len(),
            k <= i <= n,
            out@ == name@.subrange(k as int, i as int),
        decreases n - i,
    {
        out.push(cs[i]);
        assert(out@ =~= name@.subrange(k as int, i + 1));
        i = i + 1;
    }
    assert(name@.subrange(k as int, n as int) =~= name@.skip(k as int));
    Some(out)
}

proof fn lemma_last_dot_at(s: Seq<char>, k: int)
    requires
        0 <= k < s.len(),
        s[k] == '.',
        forall|j: int| k < j < s.len() ==> s[j] != '.',
    ensures
        last_dot(s) == Some(k),
    decreases s.len(),
{
    if k < s.len() - 1 {
        let d = s.drop_last();
        assert(s.last() == s[s.len() - 1]);
        assert forall|j: int| k < j < d.len() implies d[j] != '.' by {
            assert(d[j] == s[j]);
        }
        lemma_last_dot_at(d, k);
    }
}

proof fn lemma_no_dot(s: Seq<char>)
    requires
        forall|j: int| 0 <= j < s.len() ==> s[j] != '.',
    ensures
        last_dot(s) is None,
    decreases s.len(),
{
    if s.len() > 0 {
        let d = s.drop_last();
        assert(s.last() == s[s.len() - 1]);
        assert forall|j: int| 0 <= j < d.len() implies d[j] != '.' by {
            assert(d[j] == s[j]);
        }
        lemma_no_dot(d);
    }
}

/// The extension of a file name is what follows its last dot, whatever dots come before it,
/// unless that dot is the name's first character; a name with no dot past its first character
/// has no extension.
pub proof fn extension_follows_the_last_dot(name: Seq<char>, k: int)
    requires
        0 <= k < name.len(),
        name[k] == '.',
        forall|j: int| k < j < name.len() ==> name[j] != '.',
    ensures
        k > 0 ==> name_extension(name) == Some(name.skip(k + 1)),
        k == 0 ==> name_extension(name) is None,
{
    lemma_last_dot_at(name, k);
}

/// A name without a dot past its first character has no extension.
pub proof fn names_without_an_inner_dot_have_no_extension(name: Seq<char>)
    requires
        forall|j: int| 0 < j < name.len() ==> name[j] != '.',
    ensures
        name_extension(name) is None,
{
    if name.len() > 0 && name[0] == '.' {
        lemma_last_dot_at(name, 0);
    } else {
        lemma_no_dot(name);
    }
}

/// A file name made of a non-empty stem and the suffix `.` + `ext`, where `ext` has no dot,
/// has the extension `ext`, whatever dots the stem holds: `app.component.ts` has the extension
/// `ts`.
pub proof fn extension_of_stem_and_suffix(stem: Seq<char>, ext: Seq<char>)
    requires
        stem.len() > 0,
        forall|j: int| 0 <= j < ext.len() ==> ext[j] != '.',
    ensures
        name_extension(stem + seq!['.'] + ext) == Some(ext),
{
    let name = stem + seq!['.'] + ext;
    let k = stem.len() as int;
    assert(name[k] == '.');
    assert forall|j: int| k < j < name.len() implies name[j] != '.' by {
        assert(name[j] == ext[j - k - 1]);
    }
    lemma_last_dot_at(name, k);
    assert(name.skip(k + 1) =~= ext);
}

} // verus!
