//! Which characters of a text go on the sheet, and in what order.

use vstd::prelude::*;

verus! {

/// The Chinese punctuation marks that are always drawn, whatever the
/// ideograph classifier says of them.
pub open spec fn is_punctuation(c: char) -> bool {
    c == '·' || c == '—' || c == '‘' || c == '’' || c == '“' || c == '”' || c == '…'
        || c == '、' || c == '。' || c == '〈' || c == '〉' || c == '《' || c == '》'
        || c == '「' || c == '」' || c == '『' || c == '』' || c == '【' || c == '】'
        || c == '〔' || c == '〕' || c == '︰' || c == '！' || c == '（' || c == '）'
        || c == '，' || c == '．' || c == '：' || c == '；' || c == '？' || c == '［'
        || c == '］'
}

/// The code point ranges that `is_chinese` accepts: CJK ideographs, their
/// extensions and compatibility blocks, and some punctuation.
pub open spec fn in_chinese_range(u: u32) -> bool {
    (0x4e00 <= u <= 0x9fff) || u == 0xff0c || u == 0x3002 || u == 0x00b7 || u == 0x00d7
        || u == 0x2014 || u == 0x2018 || u == 0x2019 || u == 0x201c || u == 0x201d
        || u == 0x2026 || u == 0x3001 || u == 0x300a || u == 0x300b || u == 0x300e
        || u == 0x300f || u == 0x3010 || u == 0x3011 || u == 0xff01 || u == 0xff08
        || u == 0xff09 || u == 0xff1a || u == 0xff1b || u == 0xff1f
        || (0x3400 <= u <= 0x4dbf) || (0x20000 <= u <= 0x2a6df) || (0x2a700 <= u <= 0x2b73f)
        || (0x2b740 <= u <= 0x2b81f) || (0x2b820 <= u <= 0x2ceaf) || (0x3300 <= u <= 0x33ff)
        || (0xfe30 <= u <= 0xfe4f) || (0xf900 <= u <= 0xfaff) || (0x2f800 <= u <= 0x2fa1f)
}

/// What `is_chinese` says of the one-character string holding `c`.
pub open spec fn is_chinese_char_spec(c: char) -> bool {
    (c as u32) > 255 && in_chinese_range(c as u32)
}

/// Whether `c` has Unicode's White_Space property, as `char::is_whitespace` reports it.
pub uninterp spec fn white_space(c: char) -> bool;

/// Whether `c` belongs on the sheet.
pub open spec fn is_sheet_char_spec(c: char) -> bool {
    !white_space(c) && (is_punctuation(c) || is_chinese_char_spec(c))
}

/// Code points strictly ascending: sorted, and no character twice.
pub open spec fn strictly_ascending(s: Seq<char>) -> bool {
    forall|i: int, j: int| 0 <= i < j < s.len() ==> (s[i] as u32) < (s[j] as u32)
}

/// `r` is the sheet's character sequence for the text `text`.
pub open spec fn is_extraction_of(text: Seq<char>, r: Seq<char>) -> bool {
    &&& strictly_ascending(r)
    &&& forall|c: char| #[trigger] r.contains(c) <==> (text.contains(c) && is_sheet_char_spec(c))
}

/// Relies on `is_chinese::is_chinese`: on a one-character string it accepts
/// exactly the characters above U+00FF that lie in its table of ranges.
#[verifier::external_body]
fn is_chinese_char(c: char) -> (r: bool)
    ensures
        r == is_chinese_char_spec(c),
{
    is_chinese::is_chinese(c.to_string().as_str())
}

/// Relies on `char::is_whitespace`.
#[verifier::external_body]
fn is_whitespace_char(c: char) -> (r: bool)
    ensures
        r == white_space(c),
{
    c.is_whitespace()
}

/// Relies on `str::chars`: the characters of the string, in order.
#[verifier::external_body]
fn chars_of(s: &str) -> (r: Vec<char>)
    ensures
        r@ == s@,
{
    s.chars().collect()
}

/// Whether `c` is one of the fixed Chinese punctuation marks.
pub fn is_punctuation_mark(c: char) -> (r: bool)
    ensures
        r == is_punctuation(c),
{
    match c {
        '·' | '—' | '‘' | '’' | '“' | '”' | '…' | '、' | '。' | '〈' | '〉' | '《' | '》' | '「'
        | '」' | '『' | '』' | '【' | '】' | '〔' | '〕' | '︰' | '！' | '（' | '）' | '，' | '．'
        | '：' | '；' | '？' | '［' | '］' => true,
        _ => false,
    }
}

/// Whether `c` belongs on the sheet: not white space, and a punctuation mark of
/// the fixed set or a character that the Chinese classifier accepts.
pub fn is_sheet_char(c: char) -> (r: bool)
    ensures
        r == is_sheet_char_spec(c),
{
    !is_whitespace_char(c) && (is_punctuation_mark(c) || is_chinese_char(c))
}

/// Distinct characters have distinct code points.
proof fn lemma_code_injective(a: char, b: char)
    requires
        a != b,
    ensures
        (a as u32) != (b as u32),
{
}

/// The distinct characters of `v`, by ascending code point.
pub fn sorted_unique(v: &Vec<char>) -> (r: Vec<char>)
    ensures
        strictly_ascending(r@),
        forall|c: char| r@.contains(c) <==> v@.contains(c),
{
    let mut r: Vec<char> = Vec::new();
    let mut k: usize = 0;
    while k < v.len()
        invariant
            k <= v@.len(),
            strictly_ascending(r@),
            forall|c: char| r@.contains(c) <==> v@.subrange(0, k as int).contains(c),
        decreases v@.len() - k,
    {
        let c = v[k];
        let mut i: usize = 0;
        while i < r.len() && (r[i] as u32) < (c as u32)
            invariant
                i <= r@.len(),
                k < v@.len(),
                c == v@[k as int],
                strictly_ascending(r@),
                forall|x: char| r@.contains(x) <==> v@.subrange(0, k as int).contains(x),
                forall|j: int| 0 <= j < i ==> (r@[j] as u32) < (c as u32),
            decreases r@.len() - i,
        {
            i = i + 1;
        }
        let ghost before = r@;
        assert(i < before.len() ==> (before[i as int] as u32) >= (c as u32));
        if i < r.len() && r[i] == c {
            assert(r@[i as int] == c);
        } else {
            assert(i < before.len() ==> before[i as int] != c);
            proof {
                assert forall|j: int| i <= j < before.len() implies (before[j] as u32) > (
                c as u32) by {
                    assert(before[i as int] != c);
                    assert((before[i as int] as u32) >= (c as u32));
                    lemma_code_injective(before[i as int], c);
                    if j > i {
                        assert((before[i as int] as u32) < (before[j] as u32));
                    }
                }
            }
            r.insert(i, c);
            assert(forall|j: int| 0 <= j < i ==> r@[j] == before[j]);
            assert(forall|j: int| i < j < r@.len() ==> r@[j] == before[j - 1]);
            assert(r@[i as int] == c);
            assert forall|x: char| r@.contains(x) <==> (before.contains(x) || x == c) by {
                if r@.contains(x) {
                    let j = choose|j: int| 0 <= j < r@.len() && r@[j] == x;
                    if j < i {
                        assert(before[j] == x);
                    } else if j > i {
                        assert(before[j - 1] == x);
                    }
                }
                if before.contains(x) {
                    let j = choose|j: int| 0 <= j < before.len() && before[j] == x;
                    if j < i {
                        assert(r@[j] == x);
                    } else {
                        assert(r@[j + 1] == x);
                    }
                }
            }
        }
        assert(forall|x: char| r@.contains(x) <==> (before.contains(x) || x == c));
        proof {
            let pre = v@.subrange(0, k as int);
            let post = v@.subrange(0, k + 1);
            assert(post =~= pre.push(c));
            assert forall|x: char| post.contains(x) <==> (pre.contains(x) || x == c) by {
                if post.contains(x) {
                    let j = choose|j: int| 0 <= j < post.len() && post[j] == x;
                    if j < k {
                        assert(pre[j] == x);
                    }
                }
                if pre.contains(x) {
                    let j = choose|j: int| 0 <= j < pre.len() && pre[j] == x;
                    assert(post[j] == x);
                }
                if x == c {
                    assert(post[k as int] == c);
                }
            }
            assert forall|x: char| r@.contains(x) <==> post.contains(x) by {
                assert(r@.contains(x) <==> (before.contains(x) || x == c));
                assert(before.contains(x) <==> pre.contains(x));
                assert(post.contains(x) <==> (pre.contains(x) || x == c));
            }
        }
        k = k + 1;
    }
    assert(v@.subrange(0, v@.len() as int) =~= v@);
    r
}

/// The characters of `text` that belong on the sheet, each once, by ascending
/// code point.
pub fn get_unique_chinese_chars(text: &str) -> (r: Vec<char>)
    ensures
        is_extraction_of(text@, r@),
        r@.no_duplicates(),
{
    let all = chars_of(text);
    let mut kept: Vec<char> = Vec::new();
    let mut k: usize = 0;
    while k < all.len()
        invariant
            k <= all@.len(),
            all@ == text@,
            forall|x: char| #[trigger] kept@.contains(x) <==> (all@.subrange(0, k as int).contains(x)
                && is_sheet_char_spec(x)),
        decreases all@.len() - k,
    {
        let c = all[k];
        let ghost before = kept@;
        if is_sheet_char(c) {
            kept.push(c);
        }
        proof {
            let pre = all@.subrange(0, k as int);
            let post = all@.subrange(0, k + 1);
            assert(post =~= pre.push(c));
            if is_sheet_char_spec(c) {
                assert(kept@ =~= before.push(c));
            } else {
                assert(kept@ =~= before);
            }
            assert forall|x: char| #[trigger] kept@.contains(x) <==> (post.contains(x) && is_sheet_char_spec(
                x,
            )) by {
                lemma_push_contains(before, c, x);
                lemma_push_contains(pre, c, x);
                assert(before.contains(x) <==> (pre.contains(x) && is_sheet_char_spec(x)));
            }
        }
        k = k + 1;
    }
    assert(all@.subrange(0, all@.len() as int) =~= all@);
    let r = sorted_unique(&kept);
    proof {
        lemma_ascending_no_duplicates(r@);
        assert forall|x: char| r@.contains(x) <==> (text@.contains(x) && is_sheet_char_spec(x)) by {
            assert(r@.contains(x) <==> kept@.contains(x));
            assert(kept@.contains(x) <==> (all@.subrange(0, all@.len() as int).contains(x)
                && is_sheet_char_spec(x)));
        }
    }
    r
}

/// A sequence in strictly ascending code point order holds no character twice.
pub proof fn lemma_ascending_no_duplicates(s: Seq<char>)
    requires
        strictly_ascending(s),
    ensures
        s.no_duplicates(),
{
    assert forall|i: int, j: int| 0 <= i < s.len() && 0 <= j < s.len() && i != j implies s[i]
        != s[j] by {
        if i < j {
            assert((s[i] as u32) < (s[j] as u32));
        } else {
            assert((s[j] as u32) < (s[i] as u32));
        }
    }
}

/// Every character of an extraction is in the text, belongs on the sheet, and
/// is not white space; the extraction is ascending and holds no character twice.
pub proof fn lemma_extraction_contents(text: Seq<char>, r: Seq<char>)
    requires
        is_extraction_of(text, r),
    ensures
        r.no_duplicates(),
        forall|i: int, j: int| 0 <= i < j < r.len() ==> (r[i] as u32) < (r[j] as u32),
        forall|i: int|
            0 <= i < r.len() ==> text.contains(#[trigger] r[i]) && !white_space(r[i]) && (
            is_punctuation(r[i]) || is_chinese_char_spec(r[i])),
{
    lemma_ascending_no_duplicates(r);
    assert forall|i: int| 0 <= i < r.len() implies text.contains(#[trigger] r[i])
        && is_sheet_char_spec(r[i]) by {
        assert(r.contains(r[i]));
        assert(r.contains(r[i]) <==> (text.contains(r[i]) && is_sheet_char_spec(r[i])));
    }
}

/// The extraction of a text is unique: two results for the same text are the
/// same sequence, so extracting twice gives the same characters in the same order.
pub proof fn lemma_extraction_deterministic(text: Seq<char>, r1: Seq<char>, r2: Seq<char>)
    requires
        is_extraction_of(text, r1),
        is_extraction_of(text, r2),
    ensures
        r1 == r2,
{
    assert forall|c: char| r1.contains(c) <==> r2.contains(c) by {
        assert(r1.contains(c) <==> (text.contains(c) && is_sheet_char_spec(c)));
        assert(r2.contains(c) <==> (text.contains(c) && is_sheet_char_spec(c)));
    }
    lemma_same_ascending_equal(r1, r2);
}

/// What `s.push(c)` holds: what `s` held, and `c`.
proof fn lemma_push_contains(s: Seq<char>, c: char, x: char)
    ensures
        s.push(c).contains(x) <==> (s.contains(x) || x == c),
{
    if s.push(c).contains(x) && x != c {
        let j = choose|j: int| 0 <= j < s.push(c).len() && s.push(c)[j] == x;
        assert(s[j] == x);
    }
    if s.contains(x) {
        let j = choose|j: int| 0 <= j < s.len() && s[j] == x;
        assert(s.push(c)[j] == x);
    }
    assert(s.push(c)[s.len() as int] == c);
}

/// Two strictly ascending sequences that hold the same characters are equal.
proof fn lemma_same_ascending_equal(a: Seq<char>, b: Seq<char>)
    requires
        strictly_ascending(a),
        strictly_ascending(b),
        forall|c: char| a.contains(c) <==> b.contains(c),
    ensures
        a == b,
    decreases a.len() + b.len(),
{
    if a.len() == 0 || b.len() == 0 {
        if a.len() > 0 {
            assert(a.contains(a[0]));
        }
        if b.len() > 0 {
            assert(b.contains(b[0]));
        }
        assert(a =~= b);
    } else {
        let x = a.last();
        let y = b.last();
        assert(a.contains(x));
        assert(b.contains(y));
        let i = choose|i: int| 0 <= i < b.len() && b[i] == x;
        let j = choose|j: int| 0 <= j < a.len() && a[j] == y;
        if i < b.len() - 1 {
            assert((b[i] as u32) < (y as u32));
            if j < a.len() - 1 {
                assert((a[j] as u32) < (x as u32));
            }
            assert(false);
        }
        let a2 = a.drop_last();
        let b2 = b.drop_last();
        assert forall|c: char| a2.contains(c) <==> b2.contains(c) by {
            if a2.contains(c) {
                let k = choose|k: int| 0 <= k < a2.len() && a2[k] == c;
                assert((a[k] as u32) < (x as u32));
                assert(a.contains(c));
                let m = choose|m: int| 0 <= m < b.len() && b[m] == c;
                assert(m != b.len() - 1);
                assert(b2[m] == c);
            }
            if b2.contains(c) {
                let k = choose|k: int| 0 <= k < b2.len() && b2[k] == c;
                assert((b[k] as u32) < (y as u32));
                assert(b.contains(c));
                let m = choose|m: int| 0 <= m < a.len() && a[m] == c;
                assert(m != a.len() - 1);
                assert(a2[m] == c);
            }
        }
        lemma_same_ascending_equal(a2, b2);
        assert(a =~= a2.push(x));
        assert(b =~= b2.push(y));
    }
}

} // verus!
