//! Versions of the form `major.minor.patch-suffix`, with parsing,
//! formatting, and the total order used everywhere else: numeric fields
//! first, then a non-empty suffix (a pre-release) before an empty one,
//! then suffixes lexicographically.

use vstd::prelude::*;
use vstd::string::StrSliceExecFns;
use vstd::string::StringExecFns;

verus! {

use crate::Error;

/// Outcome of comparing two versions.
#[derive(Clone, Copy, Debug, PartialEq, Eq, Structural)]
pub enum VersionOrder {
    Older,
    Equal,
    Newer,
}

/// A parsed version. The suffix may be empty; the `-` separator in the
/// textual form is mandatory either way.
pub struct SemVer {
    pub major: u64,
    pub minor: u64,
    pub patch: u64,
    pub suffix: String,
}

/// The mathematical model of a version.
pub struct VersionView {
    pub major: int,
    pub minor: int,
    pub patch: int,
    pub suffix: Seq<char>,
}

impl View for SemVer {
    type V = VersionView;

    open spec fn view(&self) -> VersionView {
        VersionView {
            major: self.major as int,
            minor: self.minor as int,
            patch: self.patch as int,
            suffix: self.suffix@,
        }
    }
}

pub open spec fn is_digit_char(c: char) -> bool {
    48 <= c as u32 && c as u32 <= 57
}

pub open spec fn digit_val(c: char) -> int {
    c as u32 - 48
}

/// The decimal digit character for `d` in `0 .. 10`.
pub open spec fn digit_char(d: int) -> char {
    if d == 0 {
        '0'
    } else if d == 1 {
        '1'
    } else if d == 2 {
        '2'
    } else if d == 3 {
        '3'
    } else if d == 4 {
        '4'
    } else if d == 5 {
        '5'
    } else if d == 6 {
        '6'
    } else if d == 7 {
        '7'
    } else if d == 8 {
        '8'
    } else {
        '9'
    }
}

/// The canonical decimal digits of `n` (no leading zeros).
pub open spec fn dec_str(n: int) -> Seq<char>
    decreases n,
{
    if n < 10 {
        seq![digit_char(n)]
    } else {
        dec_str(n / 10).push(digit_char(n % 10))
    }
}

pub open spec fn all_digits(s: Seq<char>) -> bool {
    forall|i: int| 0 <= i < s.len() ==> is_digit_char(s[i])
}

/// The numeric value of a digit string, most significant digit first.
pub open spec fn dec_val(s: Seq<char>) -> int
    decreases s.len(),
{
    if s.len() == 0 {
        0
    } else {
        dec_val(s.drop_last()) * 10 + digit_val(s.last())
    }
}

/// The least index `i >= from` with `s[i] == c`, if any.
pub open spec fn find_from(s: Seq<char>, from: int, c: char) -> Option<int>
    decreases s.len() - from,
{
    if from < 0 || from >= s.len() {
        None
    } else if s[from] == c {
        Some(from)
    } else {
        find_from(s, from + 1, c)
    }
}

/// A numeric segment: non-empty, digits only, and within machine range.
pub open spec fn valid_segment(s: Seq<char>) -> bool {
    &&& s.len() > 0
    &&& all_digits(s)
    &&& dec_val(s) <= u64::MAX
}

/// What parsing a version string yields: the first two `.` bound the major
/// and minor segments, the first `-` after the second `.` bounds the patch
/// segment, and everything after that `-` is the suffix.
pub open spec fn spec_parse(s: Seq<char>) -> Option<VersionView> {
    match find_from(s, 0, '.') {
        Option::None => Option::None,
        Option::Some(p1) => match find_from(s, p1 + 1, '.') {
            Option::None => Option::None,
            Option::Some(p2) => match find_from(s, p2 + 1, '-') {
                Option::None => Option::None,
                Option::Some(p3) => {
                    let seg1 = s.subrange(0, p1);
                    let seg2 = s.subrange(p1 + 1, p2);
                    let seg3 = s.subrange(p2 + 1, p3);
                    if valid_segment(seg1) && valid_segment(seg2) && valid_segment(seg3) {
                        Option::Some(
                            VersionView {
                                major: dec_val(seg1),
                                minor: dec_val(seg2),
                                patch: dec_val(seg3),
                                suffix: s.subrange(p3 + 1, s.len() as int),
                            },
                        )
                    } else {
                        Option::None
                    }
                },
            },
        },
    }
}

/// The textual form of a version: all four fields, the `-` always present.
pub open spec fn spec_format(v: VersionView) -> Seq<char> {
    dec_str(v.major) + seq!['.'] + dec_str(v.minor) + seq!['.'] + dec_str(v.patch) + seq!['-']
        + v.suffix
}

/// Lexicographic order on suffixes; a strict prefix comes first.
pub open spec fn lex_cmp(a: Seq<char>, b: Seq<char>) -> VersionOrder
    decreases a.len(),
{
    if a.len() == 0 && b.len() == 0 {
        VersionOrder::Equal
    } else if a.len() == 0 {
        VersionOrder::Older
    } else if b.len() == 0 {
        VersionOrder::Newer
    } else if (a[0] as u32) < (b[0] as u32) {
        VersionOrder::Older
    } else if (a[0] as u32) > (b[0] as u32) {
        VersionOrder::Newer
    } else {
        lex_cmp(a.drop_first(), b.drop_first())
    }
}

/// The total order on versions: major, then minor, then patch; with equal
/// numbers a non-empty suffix orders before an empty one, and two non-empty
/// suffixes order lexicographically.
pub open spec fn spec_cmp(a: VersionView, b: VersionView) -> VersionOrder {
    if a.major < b.major {
        VersionOrder::Older
    } else if a.major > b.major {
        VersionOrder::Newer
    } else if a.minor < b.minor {
        VersionOrder::Older
    } else if a.minor > b.minor {
        VersionOrder::Newer
    } else if a.patch < b.patch {
        VersionOrder::Older
    } else if a.patch > b.patch {
        VersionOrder::Newer
    } else if a.suffix.len() > 0 && b.suffix.len() == 0 {
        VersionOrder::Older
    } else if a.suffix.len() == 0 && b.suffix.len() > 0 {
        VersionOrder::Newer
    } else {
        lex_cmp(a.suffix, b.suffix)
    }
}

/// Relies on String::push: appends exactly the one character.
#[verifier::external_body]
pub(crate) fn push_char(s: &mut String, c: char)
    ensures
        final(s)@ == old(s)@.push(c),
{
    s.push(c);
}

fn digit_char_exec(d: u64) -> (c: char)
    requires
        d < 10,
    ensures
        c == digit_char(d as int),
{
    if d == 0 {
        '0'
    } else if d == 1 {
        '1'
    } else if d == 2 {
        '2'
    } else if d == 3 {
        '3'
    } else if d == 4 {
        '4'
    } else if d == 5 {
        '5'
    } else if d == 6 {
        '6'
    } else if d == 7 {
        '7'
    } else if d == 8 {
        '8'
    } else {
        '9'
    }
}

fn push_dec(s: &mut String, n: u64)
    ensures
        final(s)@ == old(s)@ + dec_str(n as int),
    decreases n,
{
    if n >= 10 {
        push_dec(s, n / 10);
    }
    push_char(s, digit_char_exec(n % 10));
    proof {
        assert(s@ =~= old(s)@ + dec_str(n as int));
    }
}

impl SemVer {
    pub fn new(major: u64, minor: u64, patch: u64, suffix: String) -> (v: SemVer)
        ensures
            v@ == (VersionView { major: major as int, minor: minor as int, patch: patch as int, suffix: suffix@ }),
    {
        SemVer { major, minor, patch, suffix }
    }

    /// Emits `major.minor.patch-suffix`, the `-` present even for an empty
    /// suffix.
    pub fn to_string(&self) -> (s: String)
        ensures
            s@ == spec_format(self@),
    {
        let mut s = String::new();
        push_dec(&mut s, self.major);
        push_char(&mut s, '.');
        push_dec(&mut s, self.minor);
        push_char(&mut s, '.');
        push_dec(&mut s, self.patch);
        push_char(&mut s, '-');
        s.append(self.suffix.as_str());
        proof {
            assert(s@ =~= spec_format(self@));
        }
        s
    }

    /// Parses `major.minor.patch-suffix`; every other shape is a
    /// `FormatError`.
    pub fn from_string(version: String) -> (r: Result<SemVer, Error>)
        ensures
            match spec_parse(version@) {
                Option::Some(v) => r is Ok && r->Ok_0@ == v,
                Option::None => r == Result::<SemVer, Error>::Err(Error::FormatError),
            },
    {
        let s = version.as_str();
        let n = s.unicode_len();
        let p1 = match find_char_from(s, 0, '.') {
            Option::Some(i) => i,
            Option::None => {
                return Result::Err(Error::FormatError);
            },
        };
        let p2 = match find_char_from(s, p1 + 1, '.') {
            Option::Some(i) => i,
            Option::None => {
                return Result::Err(Error::FormatError);
            },
        };
        let p3 = match find_char_from(s, p2 + 1, '-') {
            Option::Some(i) => i,
            Option::None => {
                return Result::Err(Error::FormatError);
            },
        };
        let major = match parse_dec_segment(s, 0, p1) {
            Option::Some(v) => v,
            Option::None => {
                return Result::Err(Error::FormatError);
            },
        };
        let minor = match parse_dec_segment(s, p1 + 1, p2) {
            Option::Some(v) => v,
            Option::None => {
                return Result::Err(Error::FormatError);
            },
        };
        let patch = match parse_dec_segment(s, p2 + 1, p3) {
            Option::Some(v) => v,
            Option::None => {
                return Result::Err(Error::FormatError);
            },
        };
        let suffix = s.substring_char(p3 + 1, n).to_owned();
        Result::Ok(SemVer { major, minor, patch, suffix })
    }

    /// Where this version stands relative to `other` in the total order.
    pub fn compare(&self, other: &SemVer) -> (o: VersionOrder)
        ensures
            o == spec_cmp(self@, other@),
    {
        if self.major < other.major {
            VersionOrder::Older
        } else if self.major > other.major {
            VersionOrder::Newer
        } else if self.minor < other.minor {
            VersionOrder::Older
        } else if self.minor > other.minor {
            VersionOrder::Newer
        } else if self.patch < other.patch {
            VersionOrder::Older
        } else if self.patch > other.patch {
            VersionOrder::Newer
        } else {
            let a_len = self.suffix.as_str().unicode_len();
            let b_len = other.suffix.as_str().unicode_len();
            if a_len > 0 && b_len == 0 {
                VersionOrder::Older
            } else if a_len == 0 && b_len > 0 {
                VersionOrder::Newer
            } else {
                lex_compare(self.suffix.as_str(), other.suffix.as_str())
            }
        }
    }
}

fn lex_compare(a: &str, b: &str) -> (o: VersionOrder)
    ensures
        o == lex_cmp(a@, b@),
{
    let a_len = a.unicode_len();
    let b_len = b.unicode_len();
    let mut i: usize = 0;
    proof {
        assert(a@.skip(0) =~= a@);
        assert(b@.skip(0) =~= b@);
    }
    loop
        invariant
            i <= a_len,
            i <= b_len,
            a_len == a@.len(),
            b_len == b@.len(),
            lex_cmp(a@, b@) == lex_cmp(a@.skip(i as int), b@.skip(i as int)),
        decreases a_len - i,
    {
        if i == a_len && i == b_len {
            return VersionOrder::Equal;
        }
        if i == a_len {
            return VersionOrder::Older;
        }
        if i == b_len {
            return VersionOrder::Newer;
        }
        let ca = a.get_char(i);
        let cb = b.get_char(i);
        if (ca as u32) < (cb as u32) {
            return VersionOrder::Older;
        }
        if (ca as u32) > (cb as u32) {
            return VersionOrder::Newer;
        }
        proof {
            assert(a@.skip(i as int).drop_first() =~= a@.skip(i as int + 1));
            assert(b@.skip(i as int).drop_first() =~= b@.skip(i as int + 1));
        }
        i = i + 1;
    }
}

pub(crate) fn find_char_from(s: &str, from: usize, c: char) -> (r: Option<usize>)
    requires
        from <= s@.len(),
    ensures
        match r {
            Option::Some(i) => find_from(s@, from as int, c) == Option::Some(i as int) && from
                <= i < s@.len(),
            Option::None => find_from(s@, from as int, c) is None,
        },
{
    let n = s.unicode_len();
    let mut i: usize = from;
    loop
        invariant
            from <= i <= n,
            n == s@.len(),
            find_from(s@, from as int, c) == find_from(s@, i as int, c),
        decreases n - i,
    {
        if i == n {
            return Option::None;
        }
        if s.get_char(i) == c {
            return Option::Some(i);
        }
        i = i + 1;
    }
}

proof fn lemma_dec_val_nonneg(s: Seq<char>)
    requires
        all_digits(s),
    ensures
        dec_val(s) >= 0,
    decreases s.len(),
{
    if s.len() > 0 {
        assert(all_digits(s.drop_last()));
        lemma_dec_val_nonneg(s.drop_last());
    }
}

proof fn lemma_dec_val_extend(s: Seq<char>, i: int)
    requires
        0 <= i < s.len(),
    ensures
        dec_val(s.subrange(0, i + 1)) == dec_val(s.subrange(0, i)) * 10 + digit_val(s[i]),
{
    assert(s.subrange(0, i + 1).drop_last() =~= s.subrange(0, i));
    assert(s.subrange(0, i + 1).last() == s[i]);
}

proof fn lemma_dec_val_monotone(s: Seq<char>, i: int)
    requires
        all_digits(s),
        0 <= i <= s.len(),
    ensures
        dec_val(s) >= dec_val(s.subrange(0, i)),
    decreases s.len() - i,
{
    if i == s.len() {
        assert(s.subrange(0, i) =~= s);
    } else {
        lemma_dec_val_extend(s, i);
        assert(all_digits(s.subrange(0, i)));
        lemma_dec_val_nonneg(s.subrange(0, i));
        lemma_dec_val_monotone(s, i + 1);
    }
}

proof fn lemma_dec_str_props(n: int)
    requires
        n >= 0,
    ensures
        all_digits(dec_str(n)),
        dec_str(n).len() >= 1,
        dec_val(dec_str(n)) == n,
    decreases n,
{
    if n < 10 {
        let s = seq![digit_char(n)];
        assert(dec_str(n) == s);
        assert(s.drop_last() =~= Seq::<char>::empty());
        assert(dec_val(s.drop_last()) == 0);
        assert(s.last() == digit_char(n));
        assert(digit_val(digit_char(n)) == n);
        assert(dec_val(s) == n);
    } else {
        lemma_dec_str_props(n / 10);
        let d = dec_str(n / 10);
        let s = d.push(digit_char(n % 10));
        assert(s.drop_last() =~= d);
        assert(s.last() == digit_char(n % 10));
        assert(digit_val(digit_char(n % 10)) == n % 10);
        assert(dec_val(s) == dec_val(d) * 10 + (n % 10));
        assert((n / 10) * 10 + (n % 10) == n) by (nonlinear_arith)
            requires
                n >= 10,
        ;
        assert(forall|i: int| 0 <= i < s.len() ==> is_digit_char(#[trigger] s[i]));
    }
}

proof fn lemma_find_from_exact(s: Seq<char>, from: int, c: char, i: int)
    requires
        0 <= from <= i < s.len(),
        s[i] == c,
        forall|j: int| from <= j < i ==> s[j] != c,
    ensures
        find_from(s, from, c) == Option::Some(i),
    decreases i - from,
{
    if from < i {
        lemma_find_from_exact(s, from + 1, c, i);
    }
}

/// Law: parsing the textual form of a version yields that version back;
/// so on canonical strings (a version's own textual form), parsing and
/// then formatting returns the very same string.
pub proof fn lemma_parse_format(v: VersionView)
    requires
        0 <= v.major <= u64::MAX,
        0 <= v.minor <= u64::MAX,
        0 <= v.patch <= u64::MAX,
    ensures
        spec_parse(spec_format(v)) == Option::Some(v),
{
    let a = dec_str(v.major);
    let b = dec_str(v.minor);
    let c = dec_str(v.patch);
    lemma_dec_str_props(v.major);
    lemma_dec_str_props(v.minor);
    lemma_dec_str_props(v.patch);
    let s = spec_format(v);
    let p1 = a.len() as int;
    let p2 = p1 + 1 + b.len();
    let p3 = p2 + 1 + c.len();
    assert(s.len() == a.len() + b.len() + c.len() + 3 + v.suffix.len());
    assert(s[p1] == '.');
    assert(s[p2] == '.');
    assert(s[p3] == '-');
    assert forall|j: int| 0 <= j < p1 implies s[j] != '.' by {
        assert(s[j] == a[j]);
        assert(is_digit_char(a[j]));
    }
    assert forall|j: int| p1 + 1 <= j < p2 implies s[j] != '.' by {
        assert(s[j] == b[j - (p1 + 1)]);
        assert(is_digit_char(b[j - (p1 + 1)]));
    }
    assert forall|j: int| p2 + 1 <= j < p3 implies s[j] != '-' by {
        assert(s[j] == c[j - (p2 + 1)]);
        assert(is_digit_char(c[j - (p2 + 1)]));
    }
    lemma_find_from_exact(s, 0, '.', p1);
    lemma_find_from_exact(s, p1 + 1, '.', p2);
    lemma_find_from_exact(s, p2 + 1, '-', p3);
    assert(s.subrange(0, p1) =~= a);
    assert(s.subrange(p1 + 1, p2) =~= b);
    assert(s.subrange(p2 + 1, p3) =~= c);
    assert(s.subrange(p3 + 1, s.len() as int) =~= v.suffix);
}

/// Law: a canonical version string survives a parse-then-format round
/// trip unchanged.
pub proof fn lemma_format_parse_round_trip(s: Seq<char>, v: VersionView)
    requires
        0 <= v.major <= u64::MAX,
        0 <= v.minor <= u64::MAX,
        0 <= v.patch <= u64::MAX,
        s == spec_format(v),
    ensures
        spec_parse(s) is Some,
        spec_format(spec_parse(s)->Some_0) == s,
{
    lemma_parse_format(v);
}

proof fn lemma_char_cast_injective(x: char, y: char)
    requires
        x as u32 == y as u32,
    ensures
        x == y,
{
}

proof fn lemma_lex_cmp_eq(a: Seq<char>, b: Seq<char>)
    ensures
        (lex_cmp(a, b) is Equal) <==> (a == b),
    decreases a.len(),
{
    if a.len() == 0 && b.len() == 0 {
        assert(a =~= b);
    } else if a.len() > 0 && b.len() > 0 {
        lemma_lex_cmp_eq(a.drop_first(), b.drop_first());
        if lex_cmp(a, b) is Equal {
            assert(a[0] as u32 == b[0] as u32);
            assert(a.drop_first() == b.drop_first());
            assert forall|i: int| 0 <= i < a.len() implies a[i] == b[i] by {
                if i == 0 {
                    lemma_char_cast_injective(a[0], b[0]);
                } else {
                    assert(a[i] == a.drop_first()[i - 1]);
                    assert(b[i] == b.drop_first()[i - 1]);
                }
            }
            assert(a =~= b);
        }
        if a == b {
            assert(a.drop_first() =~= b.drop_first());
            assert(a[0] == b[0]);
        }
    } else {
        assert(a.len() != b.len());
    }
}

proof fn lemma_lex_cmp_flip(a: Seq<char>, b: Seq<char>)
    ensures
        (lex_cmp(a, b) is Older) <==> (lex_cmp(b, a) is Newer),
        (lex_cmp(a, b) is Newer) <==> (lex_cmp(b, a) is Older),
    decreases a.len(),
{
    if a.len() == 0 || b.len() == 0 {
    } else if a[0] as u32 == b[0] as u32 {
        lemma_lex_cmp_flip(a.drop_first(), b.drop_first());
        assert(lex_cmp(a, b) == lex_cmp(a.drop_first(), b.drop_first()));
        assert(lex_cmp(b, a) == lex_cmp(b.drop_first(), a.drop_first()));
    }
}

/// Law: the version order is total. For any two versions exactly one of
/// older-than, equal, newer-than holds: the comparison is `Equal` exactly
/// on equal versions, and older-than one way is newer-than the other way.
pub proof fn lemma_order_trichotomy(a: VersionView, b: VersionView)
    ensures
        (spec_cmp(a, b) is Equal) <==> (a == b),
        (spec_cmp(a, b) is Older) <==> (spec_cmp(b, a) is Newer),
        spec_cmp(a, b) is Older || spec_cmp(a, b) is Equal || spec_cmp(a, b) is Newer,
{
    lemma_lex_cmp_eq(a.suffix, b.suffix);
    lemma_lex_cmp_flip(a.suffix, b.suffix);
}

/// Law: the version order is transitive across versions with pairwise
/// distinct major numbers.
pub proof fn lemma_order_transitive_distinct_major(a: VersionView, b: VersionView, c: VersionView)
    requires
        a.major != b.major,
        b.major != c.major,
        a.major != c.major,
        spec_cmp(a, b) is Older,
        spec_cmp(b, c) is Older,
    ensures
        spec_cmp(a, c) is Older,
{
}

/// Law: with equal numeric fields, a version with a non-empty suffix (a
/// pre-release) orders strictly before one with an empty suffix.
pub proof fn lemma_prerelease_precedes_release(a: VersionView, b: VersionView)
    requires
        a.major == b.major,
        a.minor == b.minor,
        a.patch == b.patch,
        a.suffix.len() > 0,
        b.suffix.len() == 0,
    ensures
        spec_cmp(a, b) is Older,
        spec_cmp(b, a) is Newer,
{
}

fn parse_dec_segment(s: &str, from: usize, to: usize) -> (r: Option<u64>)
    requires
        from <= to <= s@.len(),
    ensures
        ({
            let seg = s@.subrange(from as int, to as int);
            match r {
                Option::Some(v) => valid_segment(seg) && v as int == dec_val(seg),
                Option::None => !valid_segment(seg),
            }
        }),
{
    let ghost seg = s@.subrange(from as int, to as int);
    if from == to {
        proof {
            assert(seg.len() == 0);
        }
        return Option::None;
    }
    let mut acc: u64 = 0;
    let mut i: usize = from;
    loop
        invariant
            from < to,
            from <= i <= to <= s@.len(),
            seg == s@.subrange(from as int, to as int),
            all_digits(seg.subrange(0, i - from)),
            acc as int == dec_val(seg.subrange(0, i - from)),
        decreases to - i,
    {
        if i == to {
            proof {
                assert(seg.subrange(0, i - from) =~= seg);
            }
            return Option::Some(acc);
        }
        let c = s.get_char(i);
        let cu = c as u32;
        proof {
            assert(seg[i - from] == s@[i as int]);
        }
        if cu < 48 || cu > 57 {
            proof {
                assert(!is_digit_char(seg[i - from]));
            }
            return Option::None;
        }
        let d: u64 = (cu - 48) as u64;
        if acc > (u64::MAX - d) / 10 {
            proof {
                lemma_dec_val_extend(seg, i - from);
                assert(all_digits(seg.subrange(0, i - from + 1)));
                assert(dec_val(seg.subrange(0, i - from + 1)) > u64::MAX) by (nonlinear_arith)
                    requires
                        dec_val(seg.subrange(0, i - from + 1)) == acc as int * 10 + digit_val(
                            seg[i - from],
                        ),
                        acc as int > ((u64::MAX - d as int) / 10 as int),
                        digit_val(seg[i - from]) == d as int,
                        0 <= d < 10,
                ;
                if all_digits(seg) {
                    lemma_dec_val_monotone(seg, i - from + 1);
                }
            }
            return Option::None;
        }
        proof {
            lemma_dec_val_extend(seg, i - from);
            assert(acc as int * 10 + d <= u64::MAX) by (nonlinear_arith)
                requires
                    acc as int <= ((u64::MAX - d as int) / 10 as int),
                    0 <= d < 10,
                    0 <= acc,
            ;
            assert(seg.subrange(0, i - from + 1).subrange(0, i - from) =~= seg.subrange(
                0,
                i - from,
            ));
        }
        acc = acc * 10 + d;
        i = i + 1;
        proof {
            assert(all_digits(seg.subrange(0, i - from)));
        }
    }
}

} // verus!
