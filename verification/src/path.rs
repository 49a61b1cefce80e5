//! Paths of log files in an object store.

use vstd::prelude::*;
use vstd::string::*;

verus! {

/// `object_store::path::Error`, the error of `Path::parse`: carried from the
/// call to the place that turns it into `InvalidPath`, and not looked into.
#[verifier::external_type_specification]
#[verifier::external_body]
pub struct ExPathError(object_store::path::Error);

/// Whether `c` is an ASCII control character.
pub open spec fn is_control(c: char) -> bool {
    c as u32 <= 0x1f || c as u32 == 0x7f
}

/// `text` without one `/` at its start, if it starts with one.
pub open spec fn without_leading_slash(text: Seq<char>) -> Seq<char> {
    if text.len() > 0 && text[0] == '/' {
        text.subrange(1, text.len() as int)
    } else {
        text
    }
}

/// `text` without one `/` at its end, if it ends with one.
pub open spec fn without_trailing_slash(text: Seq<char>) -> Seq<char> {
    if text.len() > 0 && text.last() == '/' {
        text.drop_last()
    } else {
        text
    }
}

/// The path that `raw` stands for: `raw` without one leading and one
/// trailing `/`.
pub open spec fn canonical(raw: Seq<char>) -> Seq<char> {
    without_trailing_slash(without_leading_slash(raw))
}

/// Whether `text[i..j]` runs from the start of a segment to the end of a
/// segment: it starts at the start of `text` or behind a `/`, and ends at
/// the end of `text` or before a `/`.
pub open spec fn spans_segments(text: Seq<char>, i: int, j: int) -> bool {
    &&& 0 <= i <= j <= text.len()
    &&& i == 0 || text[i - 1] == '/'
    &&& j == text.len() || text[j] == '/'
}

/// Whether every segment of `text`, the pieces that `/` separates, is a
/// name: not empty, not `.` or `..`, and without control characters.
pub open spec fn segments_are_names(text: Seq<char>) -> bool {
    &&& forall|i: int| 0 <= i < text.len() ==> !is_control(#[trigger] text[i])
    &&& forall|i: int, j: int| #[trigger]
        spans_segments(text, i, j) ==> i < j && text.subrange(i, j) != seq!['.'] && text.subrange(
            i,
            j,
        ) != seq!['.', '.']
}

/// Whether `raw` is the path of an object: nothing at all or a single `/`,
/// which stand for the root, or names separated by `/`, with at most one
/// `/` before and one behind them.
pub open spec fn is_object_path(raw: Seq<char>) -> bool {
    without_leading_slash(raw).len() == 0 || segments_are_names(canonical(raw))
}

/// Calls `object_store::path::Path::parse` and hands back the text of the
/// path it returns. Trusted: `parse` accepts exactly the strings that
/// `is_object_path` describes, and the path it returns is the string
/// without one leading and one trailing `/`.
#[verifier::external_body]
fn parse_object_path(raw: &str) -> (parsed: Result<String, object_store::path::Error>)
    ensures
        parsed is Ok <==> is_object_path(raw@),
        parsed matches Ok(text) ==> text@ == canonical(raw@),
{
    object_store::path::Path::parse(raw).map(String::from)
}

/// A string is no path of an object.
#[derive(Debug)]
pub struct InvalidPath {
    /// The string as it was given.
    pub path: String,
}

/// Reads `raw` as the path of an object and returns the path in its
/// canonical form, without a leading or trailing `/`.
pub fn parse_path(raw: &str) -> (parsed: Result<String, InvalidPath>)
    ensures
        match parsed {
            Ok(path) => is_object_path(raw@) && path@ == canonical(raw@),
            Err(e) => !is_object_path(raw@) && e.path@ == raw@,
        },
{
    match parse_object_path(raw) {
        Ok(path) => Ok(path),
        Err(_) => Err(InvalidPath { path: raw.to_owned() }),
    }
}

/// The place of the last `c` in `text`, or -1 where there is none.
pub open spec fn last_index_of(text: Seq<char>, c: char) -> int
    decreases text.len(),
{
    if text.len() == 0 {
        -1
    } else if text.last() == c {
        text.len() - 1
    } else {
        last_index_of(text.drop_last(), c)
    }
}

/// The last segment of a path: what follows its last `/`.
pub open spec fn file_name(path: Seq<char>) -> Seq<char> {
    path.subrange(last_index_of(path, '/') + 1, path.len() as int)
}

/// The extension of the file that a path names: what follows the last `.`
/// of its last segment, where there is a `.` and something follows it.
pub open spec fn extension_of(path: Seq<char>) -> Option<Seq<char>> {
    let name = file_name(path);
    let dot = last_index_of(name, '.');
    if dot < 0 || dot == name.len() - 1 {
        None
    } else {
        Some(name.subrange(dot + 1, name.len() as int))
    }
}

proof fn lemma_last_index_of(text: Seq<char>, c: char)
    ensures
        -1 <= last_index_of(text, c) < text.len(),
        last_index_of(text, c) >= 0 ==> text[last_index_of(text, c)] == c,
        forall|k: int| last_index_of(text, c) < k < text.len() ==> text[k] != c,
    decreases text.len(),
{
    if text.len() > 0 && text.last() != c {
        lemma_last_index_of(text.drop_last(), c);
        assert forall|k: int| last_index_of(text, c) < k < text.len() implies text[k] != c by {
            if k < text.len() - 1 {
                assert(text.drop_last()[k] == text[k]);
            }
        }
    }
}

/// A place holds the last `c` if it holds `c` and no later place does.
proof fn lemma_last_index_is(text: Seq<char>, c: char, at: int)
    requires
        -1 <= at < text.len(),
        at >= 0 ==> text[at] == c,
        forall|k: int| at < k < text.len() ==> text[k] != c,
    ensures
        last_index_of(text, c) == at,
{
    lemma_last_index_of(text, c);
}

/// The place of the last `c` among the characters `from..` of `text`,
/// counted from `from`; -1 where there is none.
fn find_last(text: &str, from: usize, c: char) -> (at: Option<usize>)
    requires
        from <= text@.len(),
    ensures
        match at {
            Some(i) => i < text@.len() - from && last_index_of(
                text@.subrange(from as int, text@.len() as int),
                c,
            ) == i,
            None => last_index_of(text@.subrange(from as int, text@.len() as int), c) == -1,
        },
{
    let n = text.unicode_len();
    let ghost tail = text@.subrange(from as int, n as int);
    let mut i: usize = n;
    while i > from
        invariant
            from <= i <= n,
            n == text@.len(),
            tail == text@.subrange(from as int, n as int),
            forall|k: int| i - from <= k < tail.len() ==> tail[k] != c,
        decreases i,
    {
        i = i - 1;
        if text.get_char(i) == c {
            proof {
                assert(tail[i - from] == text@[i as int]);
                lemma_last_index_is(tail, c, i - from);
            }
            return Some(i - from);
        }
        assert(tail[i - from] == text@[i as int]);
    }
    proof {
        lemma_last_index_is(tail, c, -1);
    }
    None
}

/// The extension of the file that `path` names, if it has one.
pub fn extension(path: &str) -> (ext: Option<String>)
    ensures
        match ext {
            Some(e) => extension_of(path@) == Some(e@),
            None => extension_of(path@) is None,
        },
{
    let n = path.unicode_len();
    let start: usize = match find_last(path, 0, '/') {
        Some(slash) => slash + 1,
        None => 0,
    };
    assert(path@.subrange(0, n as int) =~= path@);
    assert(file_name(path@) == path@.subrange(start as int, n as int));
    match find_last(path, start, '.') {
        Some(dot) => {
            if dot == n - start - 1 {
                None
            } else {
                let ext = path.substring_char(start + dot + 1, n);
                assert(ext@ =~= file_name(path@).subrange(dot + 1, file_name(path@).len() as int));
                Some(ext.to_owned())
            }
        },
        None => None,
    }
}

} // verus!
