//! Text building blocks: decimal rendering and byte-wise string order.
use vstd::prelude::*;
use vstd::string::*;
use vstd::utf8::*;

verus! {

/// The decimal digit `d` as a character.
pub open spec fn digit_char(d: nat) -> char {
    ('0' as nat + d) as char
}

/// The decimal numeral of `n`, without leading zeros.
pub open spec fn decimal(n: nat) -> Seq<char>
    decreases n,
{
    if n < 10 {
        seq![digit_char(n)]
    } else {
        decimal(n / 10).push(digit_char(n % 10))
    }
}

/// The decimal numeral of `i`, with a leading minus sign when negative.
pub open spec fn signed_decimal(i: int) -> Seq<char> {
    if i < 0 {
        seq!['-'] + decimal((-i) as nat)
    } else {
        decimal(i as nat)
    }
}

/// Appends one decimal digit.
fn push_digit(out: &mut String, d: u64)
    requires
        d < 10,
    ensures
        final(out)@ == old(out)@.push(digit_char(d as nat)),
{
    proof {
        reveal_strlit("0");
        reveal_strlit("1");
        reveal_strlit("2");
        reveal_strlit("3");
        reveal_strlit("4");
        reveal_strlit("5");
        reveal_strlit("6");
        reveal_strlit("7");
        reveal_strlit("8");
        reveal_strlit("9");
    }
    let ghost before = out@;
    let digit: &str = match d {
        0 => "0",
        1 => "1",
        2 => "2",
        3 => "3",
        4 => "4",
        5 => "5",
        6 => "6",
        7 => "7",
        8 => "8",
        _ => "9",
    };
    out.append(digit);
    assert(digit@ =~= seq![digit_char(d as nat)]);
    assert(out@ =~= before.push(digit_char(d as nat)));
}

/// Appends the decimal numeral of `n`.
pub fn push_u64(out: &mut String, n: u64)
    ensures
        final(out)@ == old(out)@ + decimal(n as nat),
    decreases n,
{
    let ghost before = out@;
    if n < 10 {
        push_digit(out, n);
        assert(out@ =~= before + decimal(n as nat));
    } else {
        push_u64(out, n / 10);
        push_digit(out, n % 10);
        assert(out@ =~= before + decimal(n as nat));
    }
}

/// Appends the decimal numeral of `i`.
pub fn push_i64(out: &mut String, i: i64)
    ensures
        final(out)@ == old(out)@ + signed_decimal(i as int),
{
    let ghost before = out@;
    if i < 0 {
        proof {
            reveal_strlit("-");
        }
        out.append("-");
        let magnitude: u64 = (-(i as i128)) as u64;
        push_u64(out, magnitude);
        assert("-"@ =~= seq!['-']);
        assert(out@ =~= before + signed_decimal(i as int));
    } else {
        push_u64(out, i as u64);
    }
}

/// Two numerals are equal only if the numbers are.
pub proof fn lemma_decimal_injective(m: nat, n: nat)
    requires
        decimal(m) == decimal(n),
    ensures
        m == n,
    decreases m,
{
    assert(decimal(m).len() >= 1 && decimal(n).len() >= 1);
    assert(decimal(m).last() == digit_char(m % 10));
    assert(decimal(n).last() == digit_char(n % 10));
    assert(m % 10 == n % 10);
    if m < 10 {
        if n >= 10 {
            lemma_decimal_nonempty(n / 10);
            assert(decimal(n).len() >= 2);
        }
    } else {
        lemma_decimal_nonempty(m / 10);
        assert(decimal(m).len() >= 2);
        if n >= 10 {
            assert(decimal(m).drop_last() =~= decimal(m / 10));
            assert(decimal(n).drop_last() =~= decimal(n / 10));
            lemma_decimal_injective(m / 10, n / 10);
        }
    }
}

/// A numeral has at least one digit.
pub proof fn lemma_decimal_nonempty(n: nat)
    ensures
        decimal(n).len() >= 1,
{
}

/// Every character of a numeral is a decimal digit.
pub proof fn lemma_decimal_digits(n: nat)
    ensures
        forall|i: int| 0 <= i < decimal(n).len() ==> '0' <= #[trigger] decimal(n)[i] <= '9',
    decreases n,
{
    if n >= 10 {
        lemma_decimal_digits(n / 10);
        assert forall|i: int| 0 <= i < decimal(n).len() implies '0' <= #[trigger] decimal(
            n,
        )[i] <= '9' by {
            if i < decimal(n / 10).len() {
                assert(decimal(n)[i] == decimal(n / 10)[i]);
            }
        }
    }
}

/// Strict lexicographic order of byte sequences, a prefix coming first.
pub open spec fn bytes_less(a: Seq<u8>, b: Seq<u8>) -> bool
    decreases a.len(),
{
    if b.len() == 0 {
        false
    } else if a.len() == 0 {
        true
    } else if a[0] != b[0] {
        a[0] < b[0]
    } else {
        bytes_less(a.skip(1), b.skip(1))
    }
}

/// Strict order of texts: the lexicographic order of their UTF-8 bytes.
pub open spec fn text_less(a: Seq<char>, b: Seq<char>) -> bool {
    bytes_less(encode_utf8(a), encode_utf8(b))
}

/// Whether `a` comes strictly before `b` in byte order.
pub fn is_less(a: &str, b: &str) -> (r: bool)
    ensures
        r == text_less(a@, b@),
{
    let x: &[u8] = a.as_bytes();
    let y: &[u8] = b.as_bytes();
    let mut i: usize = 0;
    assert(x@.skip(0) =~= x@);
    assert(y@.skip(0) =~= y@);
    while i < x.len() && i < y.len()
        invariant
            x@ == encode_utf8(a@),
            y@ == encode_utf8(b@),
            i <= x@.len(),
            i <= y@.len(),
            bytes_less(x@, y@) == bytes_less(x@.skip(i as int), y@.skip(i as int)),
        decreases x.len() - i,
    {
        if x[i] != y[i] {
            return x[i] < y[i];
        }
        assert(x@.skip(i as int).skip(1) =~= x@.skip(i + 1));
        assert(y@.skip(i as int).skip(1) =~= y@.skip(i + 1));
        i += 1;
    }
    i < y.len()
}

/// Byte order is total.
#[verifier::spinoff_prover]
pub proof fn lemma_bytes_less_total(a: Seq<u8>, b: Seq<u8>)
    ensures
        a == b || bytes_less(a, b) || bytes_less(b, a),
    decreases a.len(),
{
    if a.len() > 0 && b.len() > 0 && a[0] == b[0] {
        lemma_bytes_less_total(a.skip(1), b.skip(1));
        if a.skip(1) == b.skip(1) {
            assert(a.len() == a.skip(1).len() + 1);
            assert(b.len() == b.skip(1).len() + 1);
            assert forall|i: int| 0 <= i < a.len() implies a[i] == b[i] by {
                if i > 0 {
                    assert(a.skip(1)[i - 1] == a[i]);
                    assert(b.skip(1)[i - 1] == b[i]);
                }
            }
            assert(a =~= b);
        }
    } else if a.len() == 0 && b.len() == 0 {
        assert(a =~= b);
    }
}

/// Byte order is asymmetric, and so irreflexive.
pub proof fn lemma_bytes_less_asym(a: Seq<u8>, b: Seq<u8>)
    requires
        bytes_less(a, b),
    ensures
        !bytes_less(b, a),
        a != b,
    decreases a.len(),
{
    if a.len() > 0 && b.len() > 0 && a[0] == b[0] {
        lemma_bytes_less_asym(a.skip(1), b.skip(1));
    }
}

/// Byte order is transitive.
pub proof fn lemma_bytes_less_trans(a: Seq<u8>, b: Seq<u8>, c: Seq<u8>)
    requires
        bytes_less(a, b),
        bytes_less(b, c),
    ensures
        bytes_less(a, c),
    decreases a.len(),
{
    if a.len() > 0 && b.len() > 0 && c.len() > 0 && a[0] == b[0] && b[0] == c[0] {
        lemma_bytes_less_trans(a.skip(1), b.skip(1), c.skip(1));
    }
}

/// Text order is a strict total order.
pub proof fn lemma_text_less_total(a: Seq<char>, b: Seq<char>)
    ensures
        a == b || text_less(a, b) || text_less(b, a),
{
    lemma_bytes_less_total(encode_utf8(a), encode_utf8(b));
    encode_utf8_decode_utf8(a);
    encode_utf8_decode_utf8(b);
}

/// Text order is asymmetric, and so irreflexive.
pub proof fn lemma_text_less_asym(a: Seq<char>, b: Seq<char>)
    requires
        text_less(a, b),
    ensures
        !text_less(b, a),
        a != b,
{
    lemma_bytes_less_asym(encode_utf8(a), encode_utf8(b));
}

/// Text order is transitive.
pub proof fn lemma_text_less_trans(a: Seq<char>, b: Seq<char>, c: Seq<char>)
    requires
        text_less(a, b),
        text_less(b, c),
    ensures
        text_less(a, c),
{
    lemma_bytes_less_trans(encode_utf8(a), encode_utf8(b), encode_utf8(c));
}

/// `String::push` appends a character.
pub assume_specification[ String::push ](s: &mut String, c: char)
    ensures
        final(s)@ == old(s)@.push(c),
;

/// Whether a text ends in another.
pub open spec fn has_suffix(s: Seq<char>, suffix: Seq<char>) -> bool {
    suffix.len() <= s.len() && s.skip(s.len() - suffix.len()) == suffix
}

/// Whether a text holds another somewhere.
pub open spec fn holds(s: Seq<char>, part: Seq<char>) -> bool {
    exists|i: int| #[trigger] holds_at(s, part, i)
}

/// Whether a text holds another at a place.
pub open spec fn holds_at(s: Seq<char>, part: Seq<char>, i: int) -> bool {
    0 <= i && i + part.len() <= s.len() && s.subrange(i, i + part.len()) == part
}

/// How many bytes the characters of a text from a place on take.
pub open spec fn tail_bytes(s: Seq<char>, k: int) -> nat {
    encode_utf8(s.skip(k)).len()
}

/// How many bytes a character takes.
fn char_width(c: char) -> (r: usize)
    ensures
        r == encode_scalar(c as u32).len(),
        1 <= r <= 4,
{
    proof {
        char_is_scalar(c);
    }
    let v: u32 = c as u32;
    if v <= 0x7f {
        1
    } else if v <= 0x7ff {
        2
    } else if v <= 0xffff {
        3
    } else {
        4
    }
}

/// The text before the last `n` bytes, and the text of those bytes, where a character begins
/// there.
pub fn split_tail(s: &str, n: usize) -> (r: Option<(String, String)>)
    ensures
        match r {
            Some((front, tail)) => s@ == front@ + tail@ && encode_utf8(tail@).len() == n,
            None => forall|k: int| 0 <= k <= s@.len() ==> #[trigger] tail_bytes(s@, k) != n,
        },
{
    let chars: Vec<char> = chars_of(s);
    let mut k: usize = chars.len();
    let mut total: usize = 0;
    assert(s@.skip(k as int) =~= Seq::empty());
    while k > 0 && total < n
        invariant
            chars@ == s@,
            k <= s@.len(),
            total <= n,
            total == tail_bytes(s@, k as int),
            forall|j: int| k < j <= s@.len() ==> #[trigger] tail_bytes(s@, j) < n,
        decreases k,
    {
        let ghost tail = s@.skip(k - 1);
        assert(tail.drop_first() =~= s@.skip(k as int));
        assert(tail[0] == s@[k - 1]);
        let w: usize = char_width(chars[k - 1]);
        assert(tail_bytes(s@, k - 1) == total + w);
        if w > n - total {
            proof {
                assert forall|j: int| 0 <= j <= s@.len() implies #[trigger] tail_bytes(s@, j)
                    != n by {
                    if j < k - 1 {
                        lemma_tail_bytes(s@, j, k - 1);
                    }
                }
            }
            return None;
        }
        k = k - 1;
        total = total + w;
    }
    if total == n {
        assert(s@ =~= s@.subrange(0, k as int) + s@.subrange(k as int, s@.len() as int));
        assert(s@.subrange(k as int, s@.len() as int) =~= s@.skip(k as int));
        Some((text_of(&chars, 0, k), text_of(&chars, k, chars.len())))
    } else {
        None
    }
}

/// More characters take more bytes.
proof fn lemma_tail_bytes(s: Seq<char>, j: int, k: int)
    requires
        0 <= j < k <= s.len(),
    ensures
        tail_bytes(s, j) > tail_bytes(s, k),
    decreases k - j,
{
    let tail = s.skip(j);
    assert(tail.drop_first() =~= s.skip(j + 1));
    char_is_scalar(tail[0]);
    assert(encode_scalar(tail[0] as u32).len() >= 1);
    if j + 1 < k {
        lemma_tail_bytes(s, j + 1, k);
    }
}

/// A text splits before its last `n` bytes in one way at most.
pub proof fn lemma_split_unique(a: Seq<char>, b: Seq<char>, c: Seq<char>, d: Seq<char>)
    requires
        a + b == c + d,
        encode_utf8(b).len() == encode_utf8(d).len(),
    ensures
        a == c,
        b == d,
{
    let s = a + b;
    assert(s.skip(a.len() as int) =~= b);
    assert((c + d).skip(c.len() as int) =~= d);
    if a.len() < c.len() {
        lemma_tail_bytes(s, a.len() as int, c.len() as int);
    } else if c.len() < a.len() {
        lemma_tail_bytes(s, c.len() as int, a.len() as int);
    }
    assert(a =~= s.take(a.len() as int));
    assert(c =~= (c + d).take(c.len() as int));
}

/// Texts, with a separator between each and the next.
pub open spec fn joined(parts: Seq<Seq<char>>, separator: Seq<char>) -> Seq<char>
    decreases parts.len(),
{
    if parts.len() == 0 {
        Seq::empty()
    } else if parts.len() == 1 {
        parts[0]
    } else {
        joined(parts.drop_last(), separator) + separator + parts.last()
    }
}

/// Texts, with a separator between each and the next.
pub fn join(parts: &Vec<String>, separator: &str) -> (r: String)
    ensures
        r@ == joined(parts.deep_view(), separator@),
{
    let ghost views = parts.deep_view();
    let mut out = String::new();
    let mut i: usize = 0;
    assert(views.take(0) =~= Seq::empty());
    assert(out@ =~= Seq::empty());
    while i < parts.len()
        invariant
            i <= parts@.len(),
            views == parts.deep_view(),
            out@ == joined(views.take(i as int), separator@),
        decreases parts.len() - i,
    {
        proof {
            assert(views[i as int] == parts@[i as int]@);
            assert(views.take(i + 1).drop_last() =~= views.take(i as int));
            assert(views.take(i + 1).last() == views[i as int]);
        }
        if i > 0 {
            out.append(separator);
        } else {
            assert(out@ + views[0] =~= views[0]);
        }
        out.append(parts[i].as_str());
        i += 1;
    }
    assert(views.take(i as int) =~= views);
    out
}

/// A text without two kinds of characters.
pub open spec fn without(s: Seq<char>, a: char, b: char) -> Seq<char> {
    s.filter(other_than(a, b))
}

/// The characters other than two.
pub open spec fn other_than(a: char, b: char) -> spec_fn(char) -> bool {
    |c: char| c != a && c != b
}

/// The characters of a text.
pub fn chars_of(s: &str) -> (r: Vec<char>)
    ensures
        r@ == s@,
{
    let mut out: Vec<char> = Vec::new();
    for c in it: s.chars()
        invariant
            it.seq() == s@,
            out@ == s@.take(it.index()),
    {
        assert(s@.take(it.index() + 1) =~= s@.take(it.index()).push(c));
        out.push(c);
    }
    assert(s@.take(s@.len() as int) =~= s@);
    out
}

/// The text of a range of characters.
pub fn text_of(chars: &Vec<char>, from: usize, to: usize) -> (r: String)
    requires
        from <= to <= chars@.len(),
    ensures
        r@ == chars@.subrange(from as int, to as int),
{
    let mut out = String::new();
    let mut i: usize = from;
    assert(chars@.subrange(from as int, from as int) =~= Seq::empty());
    while i < to
        invariant
            from <= i <= to <= chars@.len(),
            out@ == chars@.subrange(from as int, i as int),
        decreases to - i,
    {
        out.push(chars[i]);
        assert(chars@.subrange(from as int, i + 1) =~= chars@.subrange(from as int, i as int).push(
            chars@[i as int],
        ));
        i += 1;
    }
    out
}

/// Whether the characters of a list from a place on are those of another.
fn matches_at(s: &Vec<char>, part: &Vec<char>, at: usize) -> (r: bool)
    requires
        at + part@.len() <= s@.len(),
    ensures
        r == (s@.subrange(at as int, at + part@.len()) == part@),
{
    let mut i: usize = 0;
    while i < part.len()
        invariant
            i <= part@.len(),
            at + part@.len() <= s@.len(),
            forall|k: int| 0 <= k < i ==> s@[at + k] == part@[k],
        decreases part.len() - i,
    {
        assert(at + i < s.len());
        if s[at + i] != part[i] {
            assert(s@.subrange(at as int, at + part@.len())[i as int] != part@[i as int]);
            return false;
        }
        i += 1;
    }
    assert(s@.subrange(at as int, at + part@.len()) =~= part@);
    true
}

/// The text before a suffix, where the text ends in it.
pub fn strip_suffix(s: &str, suffix: &str) -> (r: Option<String>)
    ensures
        match r {
            Some(front) => has_suffix(s@, suffix@) && front@ == s@.take(s@.len() - suffix@.len()),
            None => !has_suffix(s@, suffix@),
        },
{
    let a: Vec<char> = chars_of(s);
    let b: Vec<char> = chars_of(suffix);
    if b.len() > a.len() {
        return None;
    }
    let at: usize = a.len() - b.len();
    assert(a@.subrange(at as int, at + b@.len()) =~= a@.skip(at as int));
    if matches_at(&a, &b, at) {
        assert(a@.subrange(0, at as int) =~= a@.take(at as int));
        Some(text_of(&a, 0, at))
    } else {
        None
    }
}

/// Whether a text holds another somewhere.
pub fn contains(s: &str, part: &str) -> (r: bool)
    ensures
        r == holds(s@, part@),
{
    let a: Vec<char> = chars_of(s);
    let b: Vec<char> = chars_of(part);
    if b.len() > a.len() {
        return false;
    }
    let last: usize = a.len() - b.len();
    let mut i: usize = 0;
    while i <= last
        invariant
            a@ == s@,
            b@ == part@,
            last + b@.len() == a@.len(),
            i <= last + 1,
            forall|k: int| 0 <= k < i ==> !#[trigger] holds_at(s@, part@, k),
        decreases last + 1 - i,
    {
        if matches_at(&a, &b, i) {
            assert(holds_at(s@, part@, i as int));
            return true;
        }
        assert(!holds_at(s@, part@, i as int));
        if i == last {
            assert(forall|k: int| !#[trigger] holds_at(s@, part@, k));
            return false;
        }
        i += 1;
    }
    false
}

/// A text without two kinds of characters.
pub fn remove_chars(s: &str, a: char, b: char) -> (r: String)
    ensures
        r@ == without(s@, a, b),
{
    let chars: Vec<char> = chars_of(s);
    let ghost keep = other_than(a, b);
    let mut out = String::new();
    let mut i: usize = 0;
    proof {
        reveal(Seq::filter);
        assert(s@.take(0) =~= Seq::empty());
    }
    while i < chars.len()
        invariant
            chars@ == s@,
            keep == other_than(a, b),
            i <= chars@.len(),
            out@ == s@.take(i as int).filter(keep),
        decreases chars.len() - i,
    {
        proof {
            reveal(Seq::filter);
            assert(s@.take(i + 1).drop_last() =~= s@.take(i as int));
            assert(s@.take(i + 1).last() == s@[i as int]);
        }
        if chars[i] != a && chars[i] != b {
            out.push(chars[i]);
        }
        i += 1;
    }
    assert(s@.take(i as int) =~= s@);
    out
}

/// Whether two texts hold the same characters.
pub fn is_same(a: &str, b: &str) -> (r: bool)
    ensures
        r == (a@ == b@),
{
    let x: &[u8] = a.as_bytes();
    let y: &[u8] = b.as_bytes();
    proof {
        encode_utf8_decode_utf8(a@);
        encode_utf8_decode_utf8(b@);
    }
    if x.len() != y.len() {
        return false;
    }
    let mut i: usize = 0;
    while i < x.len()
        invariant
            x@ == encode_utf8(a@),
            y@ == encode_utf8(b@),
            x@.len() == y@.len(),
            i <= x@.len(),
            forall|k: int| 0 <= k < i ==> x@[k] == y@[k],
        decreases x.len() - i,
    {
        if x[i] != y[i] {
            return false;
        }
        i += 1;
    }
    assert(x@ =~= y@);
    true
}

/// The number that digits stand for.
pub open spec fn value_of(digits: Seq<char>) -> int
    decreases digits.len(),
{
    if digits.len() == 0 {
        0
    } else {
        10 * value_of(digits.drop_last()) + (digits.last() as int - 48)
    }
}

/// A number is written in decimal digits that stand for it, without zeros in front; a negative one
/// with a minus sign in front of its size.
pub proof fn decimals_stand_for_numbers(n: nat, i: int)
    ensures
        value_of(decimal(n)) == n,
        forall|k: int|
            0 <= k < decimal(n).len() ==> 48 <= (#[trigger] decimal(n)[k]) as int <= 57,
        n > 0 ==> decimal(n)[0] as int != 48,
        i >= 0 ==> signed_decimal(i) == decimal(i as nat),
        i < 0 ==> signed_decimal(i) == seq!['-'] + decimal((-i) as nat),
    decreases n,
{
    reveal_with_fuel(value_of, 2);
    reveal_with_fuel(decimal, 2);
    lemma_decimal_digits(n);
    if n < 10 {
        assert(decimal(n).drop_last() =~= Seq::empty());
        assert(decimal(n).last() as int == 48 + n);
    } else {
        decimals_stand_for_numbers(n / 10, i);
        assert(decimal(n).drop_last() =~= decimal(n / 10));
        assert(decimal(n).last() as int == 48 + n % 10);
        lemma_decimal_nonempty(n / 10);
    }
}

/// Joining puts the separator between two parts and nowhere else.
pub proof fn joins_separate_parts(parts: Seq<Seq<char>>, part: Seq<char>, separator: Seq<char>)
    ensures
        joined(Seq::empty(), separator).len() == 0,
        joined(seq![part], separator) == part,
        parts.len() > 0 ==> joined(parts.push(part), separator) == joined(parts, separator)
            + separator + part,
{
    assert(parts.push(part).drop_last() =~= parts);
}

/// Texts are ordered as their bytes are: one that another starts with comes first, and else the
/// first byte that differs decides.
pub proof fn first_difference_decides(
    common: Seq<u8>,
    a: u8,
    b: u8,
    rest: Seq<u8>,
    other: Seq<u8>,
)
    requires
        a != b,
    ensures
        bytes_less(common + seq![a] + rest, common + seq![b] + other) <==> a < b,
        bytes_less(common, common + seq![a] + rest),
        !bytes_less(common, common),
    decreases common.len(),
{
    let x = common + seq![a] + rest;
    let y = common + seq![b] + other;
    if common.len() > 0 {
        first_difference_decides(common.skip(1), a, b, rest, other);
        assert(x.skip(1) =~= common.skip(1) + seq![a] + rest);
        assert(y.skip(1) =~= common.skip(1) + seq![b] + other);
        assert(x[0] == common[0] && y[0] == common[0]);
    } else {
        assert(x[0] == a && y[0] == b);
    }
}

} // verus!
