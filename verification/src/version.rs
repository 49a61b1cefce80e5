//! Semantic versions, as their three numbers and two labels.

use crate::text::{
    decimal, is_digit, lemma_decimal, lemma_same_beginning, numeral_value, push_decimal,
};
use vstd::prelude::*;
use vstd::string::*;

verus! {

/// What a `Version` is in contracts.
pub struct VersionView {
    pub major: u64,
    pub minor: u64,
    pub patch: u64,
    pub pre: Seq<char>,
    pub build: Seq<char>,
}

/// A semantic version: `major.minor.patch`, an optional pre-release label and
/// optional build metadata. Two versions are the same version when all five
/// parts agree.
#[derive(Debug)]
pub struct Version {
    pub major: u64,
    pub minor: u64,
    pub patch: u64,
    pub pre: String,
    pub build: String,
}

impl View for Version {
    type V = VersionView;

    open spec fn view(&self) -> VersionView {
        VersionView {
            major: self.major,
            minor: self.minor,
            patch: self.patch,
            pre: self.pre@,
            build: self.build@,
        }
    }
}

/// Whether `c` may stand in a label of a version: a letter or a digit of
/// ASCII, `-` or `.`.
pub open spec fn is_label_char(c: char) -> bool {
    ||| '0' as u32 <= c as u32 <= '9' as u32
    ||| 'a' as u32 <= c as u32 <= 'z' as u32
    ||| 'A' as u32 <= c as u32 <= 'Z' as u32
    ||| c == '-'
    ||| c == '.'
}

/// Whether `text` may be a label of a version, empty or not.
pub open spec fn is_label(text: Seq<char>) -> bool {
    forall|i: int| 0 <= i < text.len() ==> is_label_char(#[trigger] text[i])
}

impl VersionView {
    /// Whether the labels are labels.
    pub open spec fn wf(self) -> bool {
        is_label(self.pre) && is_label(self.build)
    }
}

/// The text of a version: the three numbers separated by dots, then `-` and
/// the pre-release label if there is one, then `+` and the build metadata if
/// there is any.
pub open spec fn version_text(v: VersionView) -> Seq<char> {
    decimal(v.major as nat) + seq!['.'] + decimal(v.minor as nat) + seq!['.'] + decimal(
        v.patch as nat,
    ) + (if v.pre.len() > 0 {
        seq!['-'] + v.pre
    } else {
        Seq::empty()
    }) + (if v.build.len() > 0 {
        seq!['+'] + v.build
    } else {
        Seq::empty()
    })
}

/// What follows the three numbers in the text of a version.
spec fn labels_text(v: VersionView) -> Seq<char> {
    (if v.pre.len() > 0 {
        seq!['-'] + v.pre
    } else {
        Seq::empty()
    }) + (if v.build.len() > 0 {
        seq!['+'] + v.build
    } else {
        Seq::empty()
    })
}

proof fn lemma_labels_text_is_injective(a: VersionView, b: VersionView)
    requires
        a.wf(),
        b.wf(),
        labels_text(a) == labels_text(b),
    ensures
        a.pre == b.pre,
        a.build == b.build,
{
    let no_plus = |c: char| c != '+';
    let build_a = if a.build.len() > 0 { seq!['+'] + a.build } else { Seq::<char>::empty() };
    let build_b = if b.build.len() > 0 { seq!['+'] + b.build } else { Seq::<char>::empty() };
    let pre_a = if a.pre.len() > 0 { seq!['-'] + a.pre } else { Seq::<char>::empty() };
    let pre_b = if b.pre.len() > 0 { seq!['-'] + b.pre } else { Seq::<char>::empty() };
    assert forall|i: int| 0 <= i < pre_a.len() implies no_plus(#[trigger] pre_a[i]) by {
        if i > 0 {
            assert(pre_a[i] == a.pre[i - 1]);
            assert(is_label_char(a.pre[i - 1]));
        }
    }
    assert forall|i: int| 0 <= i < pre_b.len() implies no_plus(#[trigger] pre_b[i]) by {
        if i > 0 {
            assert(pre_b[i] == b.pre[i - 1]);
            assert(is_label_char(b.pre[i - 1]));
        }
    }
    lemma_same_beginning(no_plus, pre_a, build_a, pre_b, build_b);
    if a.pre.len() > 0 {
        assert(a.pre =~= pre_a.subrange(1, pre_a.len() as int));
    }
    if b.pre.len() > 0 {
        assert(b.pre =~= pre_b.subrange(1, pre_b.len() as int));
    }
    if a.build.len() > 0 {
        assert(a.build =~= build_a.subrange(1, build_a.len() as int));
    }
    if b.build.len() > 0 {
        assert(b.build =~= build_b.subrange(1, build_b.len() as int));
    }
    assert(a.pre =~= b.pre);
    assert(a.build =~= b.build);
}

/// What follows a number in the text of a version, with the dot before it:
/// a number and what follows that.
proof fn lemma_number_and_rest(
    n: nat,
    rest_n: Seq<char>,
    m: nat,
    rest_m: Seq<char>,
)
    requires
        rest_n.len() > 0 ==> !is_digit(rest_n[0]),
        rest_m.len() > 0 ==> !is_digit(rest_m[0]),
        decimal(n) + rest_n == decimal(m) + rest_m,
    ensures
        n == m,
        rest_n == rest_m,
{
    lemma_decimal(n);
    lemma_decimal(m);
    lemma_same_beginning(|c: char| is_digit(c), decimal(n), rest_n, decimal(m), rest_m);
    assert(numeral_value(decimal(n)) == numeral_value(decimal(m)));
}

proof fn lemma_after_dot(x: Seq<char>, y: Seq<char>)
    requires
        seq!['.'] + x == seq!['.'] + y,
    ensures
        x == y,
{
    let dotted_x = seq!['.'] + x;
    let dotted_y = seq!['.'] + y;
    assert(dotted_x.len() == x.len() + 1);
    assert(dotted_y.len() == y.len() + 1);
    assert(x.len() == y.len());
    assert forall|i: int| 0 <= i < x.len() implies x[i] == y[i] by {
        assert(dotted_x[i + 1] == x[i]);
        assert(dotted_y[i + 1] == y[i]);
    }
    assert(x =~= y);
}

proof fn lemma_dot_number_and_rest(n: nat, rest_n: Seq<char>, m: nat, rest_m: Seq<char>)
    requires
        rest_n.len() > 0 ==> !is_digit(rest_n[0]),
        rest_m.len() > 0 ==> !is_digit(rest_m[0]),
        seq!['.'] + (decimal(n) + rest_n) == seq!['.'] + (decimal(m) + rest_m),
    ensures
        n == m,
        rest_n == rest_m,
{
    lemma_after_dot(decimal(n) + rest_n, decimal(m) + rest_m);
    lemma_number_and_rest(n, rest_n, m, rest_m);
}

/// The text of a version, read from its start: a number, and behind each
/// dot a number, and the labels.
spec fn text_from_start(v: VersionView) -> Seq<char> {
    decimal(v.major as nat) + (seq!['.'] + (decimal(v.minor as nat) + (seq!['.'] + (decimal(
        v.patch as nat,
    ) + labels_text(v)))))
}

proof fn lemma_text_from_start(v: VersionView)
    ensures
        version_text(v) == text_from_start(v),
{
    assert(version_text(v) =~= text_from_start(v));
}

proof fn lemma_labels_begin(v: VersionView)
    ensures
        labels_text(v).len() > 0 ==> !is_digit(labels_text(v)[0]),
{
}

/// Versions with labels that are labels have different texts unless they
/// are the same version.
pub proof fn lemma_version_text_is_injective(a: VersionView, b: VersionView)
    requires
        a.wf(),
        b.wf(),
        version_text(a) == version_text(b),
    ensures
        a == b,
{
    let dot = seq!['.'];
    let tail_a = labels_text(a);
    let tail_b = labels_text(b);
    let patch_a = dot + (decimal(a.patch as nat) + tail_a);
    let patch_b = dot + (decimal(b.patch as nat) + tail_b);
    let minor_a = dot + (decimal(a.minor as nat) + patch_a);
    let minor_b = dot + (decimal(b.minor as nat) + patch_b);
    lemma_text_from_start(a);
    lemma_text_from_start(b);
    lemma_labels_begin(a);
    lemma_labels_begin(b);
    assert(minor_a[0] == '.' && minor_b[0] == '.');
    assert(patch_a[0] == '.' && patch_b[0] == '.');
    assert(!is_digit('.'));
    lemma_number_and_rest(a.major as nat, minor_a, b.major as nat, minor_b);
    lemma_dot_number_and_rest(a.minor as nat, patch_a, b.minor as nat, patch_b);
    lemma_dot_number_and_rest(a.patch as nat, tail_a, b.patch as nat, tail_b);
    lemma_labels_text_is_injective(a, b);
}

/// Whether every character of `text` may stand in a label of a version.
fn is_label_str(text: &str) -> (ok: bool)
    ensures
        ok == is_label(text@),
{
    let n = text.unicode_len();
    let mut i: usize = 0;
    while i < n
        invariant
            n == text@.len(),
            i <= n,
            forall|k: int| 0 <= k < i ==> is_label_char(#[trigger] text@[k]),
        decreases n - i,
    {
        let c = text.get_char(i);
        let code = c as u32;
        let ok = (48 <= code && code <= 57) || (97 <= code && code <= 122) || (65 <= code && code
            <= 90) || code == 45 || code == 46;
        if !ok {
            assert(!is_label_char(text@[i as int]));
            return false;
        }
        i = i + 1;
    }
    true
}

impl Version {
    /// Whether the labels of the version are labels. Versions with such
    /// labels have different texts.
    pub open spec fn wf(&self) -> bool {
        self@.wf()
    }

    /// The release `major.minor.patch`, without labels.
    pub fn new(major: u64, minor: u64, patch: u64) -> (v: Version)
        ensures
            v@ == (VersionView { major, minor, patch, pre: Seq::empty(), build: Seq::empty() }),
            v.wf(),
    {
        Version { major, minor, patch, pre: String::new(), build: String::new() }
    }

    /// The version `major.minor.patch` with a pre-release label and build
    /// metadata, either of which may be empty; `None` where one of them
    /// holds a character that no label holds.
    pub fn with_labels(major: u64, minor: u64, patch: u64, pre: String, build: String) -> (v: Option<
        Version,
    >)
        ensures
            v is Some <==> is_label(pre@) && is_label(build@),
            v matches Some(version) ==> version.wf() && version == (Version {
                major,
                minor,
                patch,
                pre,
                build,
            }),
    {
        if is_label_str(pre.as_str()) && is_label_str(build.as_str()) {
            Some(Version { major, minor, patch, pre, build })
        } else {
            None
        }
    }

    /// Whether two versions are the same version.
    pub fn same(&self, other: &Version) -> (same: bool)
        ensures
            same == (self@ == other@),
    {
        let same = self.major == other.major && self.minor == other.minor && self.patch
            == other.patch && self.pre == other.pre && self.build == other.build;
        assert(same == (self@ == other@)) by {
            if self@ == other@ {
                assert(self.pre@ == other.pre@);
            }
        }
        same
    }

    /// A copy of this version.
    pub fn duplicate(&self) -> (copy: Version)
        ensures
            copy@ == self@,
    {
        Version {
            major: self.major,
            minor: self.minor,
            patch: self.patch,
            pre: self.pre.clone(),
            build: self.build.clone(),
        }
    }

    /// The version as text, such as `1.2.3-beta.1+build5`.
    pub fn to_text(&self) -> (text: String)
        ensures
            text@ == version_text(self@),
    {
        let mut text = String::new();
        push_decimal(&mut text, self.major);
        text.append(".");
        push_decimal(&mut text, self.minor);
        text.append(".");
        push_decimal(&mut text, self.patch);
        if self.pre.as_str().unicode_len() > 0 {
            text.append("-");
            text.append(self.pre.as_str());
        }
        if self.build.as_str().unicode_len() > 0 {
            text.append("+");
            text.append(self.build.as_str());
        }
        proof {
            reveal_strlit(".");
            reveal_strlit("-");
            reveal_strlit("+");
            assert("."@ =~= seq!['.']);
            assert("-"@ =~= seq!['-']);
            assert("+"@ =~= seq!['+']);
            assert(text@ =~= version_text(self@));
        }
        text
    }
}

} // verus!
