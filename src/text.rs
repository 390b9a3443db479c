//! Character-level helpers over `String` and `str`, each stated over the
//! `Seq<char>` view of its arguments.
use vstd::prelude::*;
use vstd::string::*;

verus! {

/// True of the characters that separate the words of a command line.
pub open spec fn is_blank(c: char) -> bool {
    c == ' ' || c == '\t' || c == '\n' || c == '\r'
}

/// The pieces of `s` between occurrences of `sep`, as `str::split` gives
/// them: never empty, one more piece than there are separators.
pub open spec fn split_on(s: Seq<char>, sep: char) -> Seq<Seq<char>>
    decreases s.len(),
{
    if s.len() == 0 {
        seq![Seq::empty()]
    } else {
        let pre = split_on(s.drop_last(), sep);
        if s.last() == sep {
            pre.push(Seq::empty())
        } else {
            pre.update(pre.len() - 1, pre.last().push(s.last()))
        }
    }
}

/// The maximal runs of non-blank characters of `s`, in order.
pub open spec fn words(s: Seq<char>) -> Seq<Seq<char>>
    decreases s.len(),
{
    if s.len() == 0 {
        Seq::empty()
    } else {
        let pre = words(s.drop_last());
        let c = s.last();
        if is_blank(c) {
            pre
        } else if s.len() == 1 || is_blank(s[s.len() - 2]) {
            pre.push(seq![c])
        } else {
            pre.update(pre.len() - 1, pre.last().push(c))
        }
    }
}

/// `needle` occurs in `hay` at some position.
pub open spec fn contains_seq(hay: Seq<char>, needle: Seq<char>) -> bool {
    exists|i: int|
        0 <= i && i + needle.len() <= hay.len() && #[trigger] hay.subrange(i, i + needle.len())
            == needle
}

pub open spec fn is_digit(c: char) -> bool {
    '0' <= c && c <= '9'
}

/// Every character of `s` is a decimal digit.
pub open spec fn all_digits(s: Seq<char>) -> bool {
    forall|i: int| 0 <= i < s.len() ==> is_digit(#[trigger] s[i])
}

/// The number that the decimal digits `s` write.
pub open spec fn digits_value(s: Seq<char>) -> nat
    decreases s.len(),
{
    if s.len() == 0 {
        0
    } else {
        digits_value(s.drop_last()) * 10 + ((s.last() as u32) - ('0' as u32)) as nat
    }
}

/// `s` is a non-empty run of decimal digits that names a value of `u32`.
pub open spec fn is_u32_text(s: Seq<char>) -> bool {
    s.len() > 0 && all_digits(s) && digits_value(s) <= u32::MAX
}

/// The decimal digits of `n`, without leading zeros.
pub open spec fn decimal(n: nat) -> Seq<char>
    decreases n,
{
    if n < 10 {
        seq![digit_char(n)]
    } else {
        decimal(n / 10).push(digit_char(n % 10))
    }
}

pub open spec fn digit_char(d: nat) -> char {
    if d == 0 { '0' }
    else if d == 1 { '1' }
    else if d == 2 { '2' }
    else if d == 3 { '3' }
    else if d == 4 { '4' }
    else if d == 5 { '5' }
    else if d == 6 { '6' }
    else if d == 7 { '7' }
    else if d == 8 { '8' }
    else { '9' }
}

/// Relies on `String::push`: the character goes to the end of the string.
#[verifier::external_body]
pub(crate) fn push_char(s: &mut String, c: char)
    ensures
        final(s)@ == old(s)@.push(c),
{
    s.push(c)
}

/// The characters of `s`, one by one.
pub fn chars_of(s: &str) -> (r: Vec<char>)
    ensures
        r@ == s@,
{
    let n = s.unicode_len();
    let mut r: Vec<char> = Vec::new();
    let mut i: usize = 0;
    while i < n
        invariant
            n == s@.len(),
            i <= n,
            r@ == s@.subrange(0, i as int),
        decreases n - i,
    {
        r.push(s.get_char(i));
        i = i + 1;
        assert(r@ =~= s@.subrange(0, i as int));
    }
    assert(r@ =~= s@);
    r
}

/// A string that holds `cs[from..to]`.
pub fn string_of(cs: &Vec<char>, from: usize, to: usize) -> (r: String)
    requires
        from <= to <= cs@.len(),
    ensures
        r@ == cs@.subrange(from as int, to as int),
{
    let mut r = String::new();
    let mut i: usize = from;
    while i < to
        invariant
            from <= i <= to <= cs@.len(),
            r@ == cs@.subrange(from as int, i as int),
        decreases to - i,
    {
        push_char(&mut r, cs[i]);
        i = i + 1;
        assert(r@ =~= cs@.subrange(from as int, i as int));
    }
    r
}

/// `str::split(sep)`, collected.
pub fn split_string(s: &str, sep: char) -> (r: Vec<String>)
    ensures
        r.deep_view() == split_on(s@, sep),
{
    let cs = chars_of(s);
    let mut parts: Vec<String> = Vec::new();
    let mut cur = String::new();
    let mut i: usize = 0;
    assert(s@.subrange(0, 0) =~= Seq::<char>::empty());
    while i < cs.len()
        invariant
            cs@ == s@,
            i <= cs@.len(),
            split_on(s@.subrange(0, i as int), sep) == parts.deep_view().push(cur@),
        decreases cs@.len() - i,
    {
        let c = cs[i];
        let ghost pre = s@.subrange(0, i as int);
        let ghost dv = parts.deep_view();
        let ghost cv = cur@;
        assert(s@.subrange(0, i + 1).drop_last() =~= pre);
        if c == sep {
            parts.push(cur);
            cur = String::new();
            assert(parts.deep_view() =~= dv.push(cv));
        } else {
            push_char(&mut cur, c);
            assert(dv.push(cv).update(dv.len() as int, cv.push(c)) =~= dv.push(cur@));
        }
        i = i + 1;
    }
    parts.push(cur);
    assert(s@.subrange(0, cs@.len() as int) =~= s@);
    parts
}

/// The words of a command line: `s` cut at blanks, empty pieces dropped.
pub fn split_words(s: &str) -> (r: Vec<String>)
    ensures
        r.deep_view() == words(s@),
{
    let cs = chars_of(s);
    let mut parts: Vec<String> = Vec::new();
    let mut cur = String::new();
    let mut i: usize = 0;
    assert(s@.subrange(0, 0) =~= Seq::<char>::empty());
    while i < cs.len()
        invariant
            cs@ == s@,
            i <= cs@.len(),
            cur@.len() > 0 <==> (i > 0 && !is_blank(s@[i - 1])),
            words(s@.subrange(0, i as int)) == if cur@.len() > 0 {
                parts.deep_view().push(cur@)
            } else {
                parts.deep_view()
            },
        decreases cs@.len() - i,
    {
        let c = cs[i];
        let ghost pre = s@.subrange(0, i as int);
        let ghost dv = parts.deep_view();
        let ghost cv = cur@;
        let ghost nxt = s@.subrange(0, i + 1);
        assert(nxt.drop_last() =~= pre);
        assert(nxt.last() == c);
        assert(i > 0 ==> nxt[nxt.len() - 2] == s@[i - 1]);
        if c == ' ' || c == '\t' || c == '\n' || c == '\r' {
            if cur.unicode_len() > 0 {
                parts.push(cur);
                cur = String::new();
                assert(parts.deep_view() =~= dv.push(cv));
            }
        } else {
            let had = cur.unicode_len() > 0;
            push_char(&mut cur, c);
            if had {
                assert(dv.push(cv).update(dv.len() as int, cv.push(c)) =~= dv.push(cur@));
            } else {
                assert(cur@ =~= seq![c]);
            }
        }
        i = i + 1;
    }
    if cur.unicode_len() > 0 {
        parts.push(cur);
    }
    assert(s@.subrange(0, cs@.len() as int) =~= s@);
    parts
}

/// Whether `needle` occurs in `hay`.
pub fn contains_text(hay: &str, needle: &str) -> (r: bool)
    ensures
        r == contains_seq(hay@, needle@),
{
    let h = chars_of(hay);
    let n = chars_of(needle);
    if n.len() > h.len() {
        return false;
    }
    if n.len() == 0 {
        assert(hay@.subrange(0int, 0int + needle@.len()) =~= needle@);
        return true;
    }
    let last = h.len() - n.len();
    let mut i: usize = 0;
    while i <= last
        invariant
            h@ == hay@,
            n@ == needle@,
            0 < n@.len() <= h@.len() <= usize::MAX,
            last == h@.len() - n@.len(),
            i <= last + 1,
            forall|k: int| 0 <= k < i ==> #[trigger] h@.subrange(k, k + n@.len()) != n@,
        decreases last + 1 - i,
    {
        let mut j: usize = 0;
        let mut same = true;
        assert(h@.subrange(i as int, i as int) =~= n@.subrange(0, 0));
        while j < n.len()
            invariant
                h@ == hay@,
                n@ == needle@,
                0 < n@.len() <= h@.len() <= usize::MAX,
                i <= last,
                last == h@.len() - n@.len(),
                j <= n@.len(),
                same == (h@.subrange(i as int, i + j) == n@.subrange(0, j as int)),
            decreases n@.len() - j,
        {
            if h[i + j] != n[j] {
                same = false;
                assert(h@.subrange(i as int, i + j + 1)[j as int] != n@.subrange(0, j + 1)[j as int]);
            } else if same {
                assert(h@.subrange(i as int, i + j + 1) =~= h@.subrange(i as int, i + j).push(h@[i + j]));
                assert(n@.subrange(0, j + 1) =~= n@.subrange(0, j as int).push(n@[j as int]));
            }
            if !same {
                assert(h@.subrange(i as int, i + j + 1).subrange(0, j as int) =~= h@.subrange(i as int, i + j));
                assert(n@.subrange(0, j + 1).subrange(0, j as int) =~= n@.subrange(0, j as int));
            }
            j = j + 1;
        }
        assert(n@.subrange(0, n@.len() as int) =~= n@);
        if same {
            assert(h@.subrange(i as int, i + n@.len()) == n@);
            return true;
        }
        i = i + 1;
    }
    assert forall|k: int| 0 <= k && k + needle@.len() <= hay@.len() implies #[trigger] hay@.subrange(
        k,
        k + needle@.len(),
    ) != needle@ by {
        assert(k < i);
    }
    false
}

/// Reads `s` as a decimal `u32`: `Some` exactly when `s` is a non-empty run
/// of digits whose value fits.
pub fn parse_u32(s: &str) -> (r: Option<u32>)
    ensures
        r is Some <==> is_u32_text(s@),
        r is Some ==> r->0 as nat == digits_value(s@),
{
    let cs = chars_of(s);
    if cs.len() == 0 {
        return None;
    }
    let mut v: u64 = 0;
    let mut i: usize = 0;
    assert(s@.subrange(0, 0) =~= Seq::<char>::empty());
    while i < cs.len()
        invariant
            cs@ == s@,
            i <= cs@.len(),
            all_digits(s@.subrange(0, i as int)),
            v as nat == digits_value(s@.subrange(0, i as int)),
            v <= u32::MAX,
        decreases cs@.len() - i,
    {
        let c = cs[i];
        let ghost nxt = s@.subrange(0, i + 1);
        assert(nxt.drop_last() =~= s@.subrange(0, i as int));
        if !('0' <= c && c <= '9') {
            assert(!is_digit(s@[i as int]));
            assert(!all_digits(s@));
            return None;
        }
        let d = (c as u32 - '0' as u32) as u64;
        v = v * 10 + d;
        if v > 0xffff_ffff {
            proof {
                lemma_prefix_value_le(s@, i + 1);
            }
            return None;
        }
        i = i + 1;
    }
    assert(s@.subrange(0, cs@.len() as int) =~= s@);
    Some(v as u32)
}

/// A longer run of digits never writes a smaller value than its prefix.
proof fn lemma_prefix_value_le(s: Seq<char>, k: int)
    requires
        0 <= k <= s.len(),
    ensures
        all_digits(s) ==> digits_value(s.subrange(0, k)) <= digits_value(s),
    decreases s.len() - k,
{
    if k < s.len() && all_digits(s) {
        lemma_prefix_value_le(s, k + 1);
        let a = s.subrange(0, k + 1);
        assert(a.drop_last() =~= s.subrange(0, k));
        assert(is_digit(s[k]));
        assert(a.last() == s[k]);
    } else if k == s.len() {
        assert(s.subrange(0, k) =~= s);
    }
}

/// The decimal text of `n`.
pub fn u32_to_text(n: u32) -> (r: String)
    ensures
        r@ == decimal(n as nat),
{
    let mut digits: Vec<char> = Vec::new();
    let mut m: u32 = n;
    loop
        invariant_except_break
            decimal(n as nat) == decimal(m as nat) + digits@,
        ensures
            decimal(n as nat) == digits@,
        decreases m,
    {
        let d = m % 10;
        let c = if d == 0 { '0' } else if d == 1 { '1' } else if d == 2 { '2' } else if d == 3 {
            '3'
        } else if d == 4 { '4' } else if d == 5 { '5' } else if d == 6 { '6' } else if d == 7 {
            '7'
        } else if d == 8 { '8' } else { '9' };
        let ghost rest = digits@;
        digits.insert(0, c);
        if m < 10 {
            assert(decimal(m as nat) == seq![c]);
            assert(digits@ =~= seq![c] + rest);
            assert(decimal(n as nat) =~= digits@);
            break;
        }
        assert(decimal(m as nat) == decimal((m / 10) as nat).push(c));
        assert(decimal((m / 10) as nat).push(c) + rest =~= decimal((m / 10) as nat) + digits@);
        m = m / 10;
    }
    assert(decimal(n as nat) =~= digits@);
    string_of(&digits, 0, digits.len())
}

/// Whether `a` holds exactly the characters of `lit`.
pub fn text_is(a: &String, lit: &str) -> (r: bool)
    ensures
        r == (a@ == lit@),
{
    let b = String::from_str(lit);
    *a == b
}

/// Whether `c` occurs in `s`.
pub fn has_char(s: &str, c: char) -> (r: bool)
    ensures
        r == s@.contains(c),
{
    let cs = chars_of(s);
    let mut i: usize = 0;
    while i < cs.len()
        invariant
            cs@ == s@,
            i <= cs@.len(),
            forall|k: int| 0 <= k < i ==> cs@[k] != c,
        decreases cs@.len() - i,
    {
        if cs[i] == c {
            assert(s@[i as int] == c);
            return true;
        }
        i = i + 1;
    }
    false
}

/// `split_on` gives one piece, plus one for each separator.
pub proof fn lemma_split_len(s: Seq<char>, sep: char)
    ensures
        split_on(s, sep).len() >= 1,
        s.contains(sep) ==> split_on(s, sep).len() >= 2,
    decreases s.len(),
{
    if s.len() > 0 {
        let p = s.drop_last();
        lemma_split_len(p, sep);
        if s.contains(sep) && s.last() != sep {
            let i = choose|i: int| 0 <= i < s.len() && s[i] == sep;
            assert(p[i] == sep);
        }
    }
}

} // verus!
