//! The textual form of chunk keys: the two corner coordinates in signed
//! decimal, joined by an underscore (`"32_-96"`).
use vstd::prelude::*;
use vstd::string::StringExecFns;
use vstd::std_specs::iter::IteratorSpec;
use crate::geometry::StreamError;
use crate::window::ChunkKey;

verus! {

/// The decimal digit character for `d < 10`.
pub open spec fn digit_char(d: int) -> char {
    if d == 0 { '0' }
    else if d == 1 { '1' }
    else if d == 2 { '2' }
    else if d == 3 { '3' }
    else if d == 4 { '4' }
    else if d == 5 { '5' }
    else if d == 6 { '6' }
    else if d == 7 { '7' }
    else if d == 8 { '8' }
    else { '9' }
}

/// Decimal digits of `n`, most significant first, without leading zeros.
pub open spec fn nat_text(n: nat) -> Seq<char>
    decreases n,
{
    if n < 10 {
        seq![digit_char(n as int)]
    } else {
        nat_text(n / 10) + seq![digit_char((n % 10) as int)]
    }
}

/// Signed decimal form of `n`: a minus sign before the digits of a
/// negative number.
pub open spec fn int_text(n: int) -> Seq<char> {
    if n < 0 {
        seq!['-'] + nat_text((-n) as nat)
    } else {
        nat_text(n as nat)
    }
}

/// The key text of the chunk with corner `(x, z)`.
pub open spec fn key_text(x: int, z: int) -> Seq<char> {
    int_text(x) + seq!['_'] + int_text(z)
}

fn digit_str(d: u64) -> (s: &'static str)
    requires
        d < 10,
    ensures
        s@ == seq![digit_char(d as int)],
{
    proof {
        reveal_strlit("0");
        reveal_strlit("1");
        reveal_strlit("2");
        reveal_strlit("3");
        reveal_strlit("4");
        reveal_strlit("5");
        reveal_strlit("6");
        reveal_strlit("7");
        reveal_strlit("8");
        reveal_strlit("9");
    }
    let s = if d == 0 { "0" }
        else if d == 1 { "1" }
        else if d == 2 { "2" }
        else if d == 3 { "3" }
        else if d == 4 { "4" }
        else if d == 5 { "5" }
        else if d == 6 { "6" }
        else if d == 7 { "7" }
        else if d == 8 { "8" }
        else { "9" };
    assert(s@ =~= seq![digit_char(d as int)]);
    s
}

fn push_digits(out: &mut String, n: u64)
    ensures
        final(out)@ == old(out)@ + nat_text(n as nat),
    decreases n,
{
    if n >= 10 {
        push_digits(out, n / 10);
    }
    out.append(digit_str(n % 10));
    assert(final(out)@ =~= old(out)@ + nat_text(n as nat));
}

fn push_int(out: &mut String, n: i32)
    ensures
        final(out)@ == old(out)@ + int_text(n as int),
{
    if n < 0 {
        proof { reveal_strlit("-"); }
        out.append("-");
        let m: u64 = (-(n as i64)) as u64;
        push_digits(out, m);
    } else {
        push_digits(out, n as u64);
    }
    assert(final(out)@ =~= old(out)@ + int_text(n as int));
}

/// The key text of the chunk with corner `key`.
pub fn key_of(key: ChunkKey) -> (s: String)
    ensures
        s@ == key_text(key.0 as int, key.1 as int),
{
    let mut s = String::new();
    push_int(&mut s, key.0);
    proof { reveal_strlit("_"); }
    s.append("_");
    push_int(&mut s, key.1);
    assert(s@ =~= key_text(key.0 as int, key.1 as int));
    s
}

/// Value of a decimal digit character, or `-1` for any other character.
pub open spec fn digit_value(c: char) -> int {
    if c == '0' { 0 }
    else if c == '1' { 1 }
    else if c == '2' { 2 }
    else if c == '3' { 3 }
    else if c == '4' { 4 }
    else if c == '5' { 5 }
    else if c == '6' { 6 }
    else if c == '7' { 7 }
    else if c == '8' { 8 }
    else if c == '9' { 9 }
    else { -1 }
}

pub open spec fn all_digits(s: Seq<char>) -> bool {
    forall|i: int| 0 <= i < s.len() ==> 0 <= #[trigger] digit_value(s[i])
}

/// Value of a run of decimal digits, most significant first.
pub open spec fn digits_value(s: Seq<char>) -> int
    decreases s.len(),
{
    if s.len() == 0 {
        0
    } else {
        digits_value(s.drop_last()) * 10 + digit_value(s.last())
    }
}

proof fn lemma_digit_char(d: int)
    requires
        0 <= d < 10,
    ensures
        digit_value(digit_char(d)) == d,
{
}

proof fn lemma_nat_text(n: nat)
    ensures
        nat_text(n).len() >= 1,
        all_digits(nat_text(n)),
        digits_value(nat_text(n)) == n,
    decreases n,
{
    let t = nat_text(n);
    if n >= 10 {
        lemma_nat_text(n / 10);
        lemma_digit_char((n % 10) as int);
        assert(t.drop_last() =~= nat_text(n / 10));
        assert(t.last() == digit_char((n % 10) as int));
        assert(n == (n / 10) * 10 + n % 10);
        assert(digits_value(t) == digits_value(t.drop_last()) * 10 + digit_value(t.last()));
        assert forall|i: int| 0 <= i < t.len() implies 0 <= #[trigger] digit_value(t[i]) by {
            if i < t.len() - 1 {
                assert(t[i] == nat_text(n / 10)[i]);
            }
        }
    } else {
        lemma_digit_char(n as int);
        assert(t.drop_last() =~= Seq::<char>::empty());
        assert(digits_value(Seq::<char>::empty()) == 0);
        assert(digits_value(t) == digits_value(t.drop_last()) * 10 + digit_value(t.last()));
    }
}

/// The shape of a signed decimal text: a leading minus sign exactly for a
/// negative number, followed by the digits of its magnitude.
proof fn lemma_text_shape(t: Seq<char>, n: int)
    requires
        t == int_text(n),
    ensures
        t.len() >= 1,
        (t[0] == '-') == (n < 0),
        n < 0 ==> t.subrange(1, t.len() as int) == nat_text((-n) as nat),
        n >= 0 ==> t == nat_text(n as nat),
{
    if n < 0 {
        lemma_nat_text((-n) as nat);
        assert(t.subrange(1, t.len() as int) =~= nat_text((-n) as nat));
    } else {
        lemma_nat_text(n as nat);
        assert(0 <= digit_value(nat_text(n as nat)[0]));
    }
}

proof fn lemma_digits_prefix(s: Seq<char>, k: int)
    requires
        all_digits(s),
        0 <= k <= s.len(),
    ensures
        0 <= digits_value(s.take(k)) <= digits_value(s),
    decreases s.len(),
{
    if s.len() > 0 {
        let d = s.drop_last();
        assert(all_digits(d)) by {
            assert forall|i: int| 0 <= i < d.len() implies 0 <= #[trigger] digit_value(d[i]) by {
                assert(d[i] == s[i]);
            }
        }
        assert(0 <= digit_value(s[s.len() - 1]));
        if k == s.len() {
            assert(s.take(k) =~= s);
            lemma_digits_prefix(d, d.len() as int);
            assert(d.take(d.len() as int) =~= d);
        } else {
            lemma_digits_prefix(d, k);
            assert(d.take(k) =~= s.take(k));
            lemma_digits_prefix(d, d.len() as int);
            assert(d.take(d.len() as int) =~= d);
        }
    } else {
        assert(s.take(k) =~= s);
    }
}

fn digit_of(c: char) -> (r: i64)
    ensures
        r == digit_value(c),
{
    if c == '0' { 0 }
    else if c == '1' { 1 }
    else if c == '2' { 2 }
    else if c == '3' { 3 }
    else if c == '4' { 4 }
    else if c == '5' { 5 }
    else if c == '6' { 6 }
    else if c == '7' { 7 }
    else if c == '8' { 8 }
    else if c == '9' { 9 }
    else { -1 }
}

fn chars_of(s: &str) -> (v: Vec<char>)
    ensures
        v@ == s@,
{
    let mut v: Vec<char> = Vec::new();
    for c in it: s.chars()
        invariant
            it.seq() == s@,
            v@ == s@.take(it.index()),
    {
        v.push(c);
        assert(v@ =~= s@.take(it.index() + 1));
    }
    assert(v@ =~= s@);
    v
}

/// Where the text of `n` in `v[start..end]` has the digits of its magnitude.
proof fn lemma_magnitude_digits(v: Seq<char>, start: int, end: int, neg: bool, first: int, n: int)
    requires
        0 <= start <= end <= v.len(),
        neg == (start < end && v[start] == '-'),
        first == if neg { start + 1 } else { start },
        v.subrange(start, end) == int_text(n),
    ensures
        neg == (n < 0),
        v.subrange(first, end) == nat_text(if n < 0 { (-n) as nat } else { n as nat }),
{
    let text = v.subrange(start, end);
    lemma_text_shape(text, n);
    assert(text[0] == v[start]);
    if n < 0 {
        assert(v.subrange(first, end) =~= text.subrange(1, text.len() as int));
    } else {
        assert(v.subrange(first, end) =~= text);
    }
}

/// Reads a signed decimal number from `v[start..end]`. Every text of an
/// `i32` written as `int_text` reads back as that number.
fn parse_int(v: &Vec<char>, start: usize, end: usize) -> (r: Option<i32>)
    requires
        start <= end <= v@.len(),
    ensures
        forall|n: i32| v@.subrange(start as int, end as int) == int_text(n as int) ==> r == Some(n),
{
    let neg = start < end && v[start] == '-';
    let first: usize = if neg { start + 1 } else { start };
    let ghost text = v@.subrange(start as int, end as int);
    let ghost digits = v@.subrange(first as int, end as int);
    if first == end {
        proof {
            assert forall|n: i32| text != int_text(n as int) by {
                if text == int_text(n as int) {
                    lemma_magnitude_digits(v@, start as int, end as int, neg, first as int, n as int);
                    lemma_nat_text(if n < 0 { (-n) as nat } else { n as nat });
                }
            }
        }
        return None;
    }
    let mut acc: i64 = 0;
    let mut i: usize = first;
    while i < end
        invariant
            first <= i <= end <= v@.len(),
            start <= end,
            first == if neg { start + 1 } else { start as int },
            neg == (start < end && v@[start as int] == '-'),
            text == v@.subrange(start as int, end as int),
            digits == v@.subrange(first as int, end as int),
            0 <= acc <= 0x8000_0000,
            all_digits(v@.subrange(first as int, i as int)),
            acc == digits_value(v@.subrange(first as int, i as int)),
        decreases end - i,
    {
        let d = digit_of(v[i]);
        if d < 0 {
            proof {
                assert forall|n: i32| text != int_text(n as int) by {
                    if text == int_text(n as int) {
                        let m: nat = if n < 0 { (-n) as nat } else { n as nat };
                        lemma_magnitude_digits(v@, start as int, end as int, neg, first as int, n as int);
                        lemma_nat_text(m);
                        assert(digits == nat_text(m));
                        assert(digits[i - first] == v@[i as int]);
                        assert(0 <= digit_value(nat_text(m)[i - first]));
                    }
                }
            }
            return None;
        }
        assert(v@.subrange(first as int, i + 1).drop_last() =~= v@.subrange(first as int, i as int));
        acc = acc * 10 + d;
        assert(all_digits(v@.subrange(first as int, i + 1))) by {
            let t = v@.subrange(first as int, i + 1);
            assert forall|q: int| 0 <= q < t.len() implies 0 <= #[trigger] digit_value(t[q]) by {
                if q < t.len() - 1 {
                    assert(t[q] == v@.subrange(first as int, i as int)[q]);
                }
            }
        }
        if acc > 0x8000_0000 {
            proof {
                assert forall|n: i32| text != int_text(n as int) by {
                    if text == int_text(n as int) {
                        let m: nat = if n < 0 { (-n) as nat } else { n as nat };
                        lemma_magnitude_digits(v@, start as int, end as int, neg, first as int, n as int);
                        lemma_nat_text(m);
                        lemma_digits_prefix(digits, i + 1 - first);
                        assert(digits.take(i + 1 - first) =~= v@.subrange(first as int, i + 1));
                    }
                }
            }
            return None;
        }
        i = i + 1;
    }
    let value: i64 = if neg { -acc } else { acc };
    proof {
        assert(digits =~= v@.subrange(first as int, i as int));
        assert forall|n: i32| text == int_text(n as int) implies value == n by {
            lemma_magnitude_digits(v@, start as int, end as int, neg, first as int, n as int);
            lemma_nat_text(if n < 0 { (-n) as nat } else { n as nat });
        }
    }
    if value < i32::MIN as i64 || value > i32::MAX as i64 {
        return None;
    }
    Some(value as i32)
}

proof fn lemma_no_separator(n: int)
    ensures
        forall|q: int| 0 <= q < int_text(n).len() ==> int_text(n)[q] != '_',
{
    let t = int_text(n);
    lemma_text_shape(t, n);
    let m: nat = if n < 0 { (-n) as nat } else { n as nat };
    lemma_nat_text(m);
    assert forall|q: int| 0 <= q < t.len() implies t[q] != '_' by {
        if n < 0 {
            if q > 0 {
                assert(t[q] == t.subrange(1, t.len() as int)[q - 1]);
                assert(0 <= digit_value(nat_text(m)[q - 1]));
            }
        } else {
            assert(0 <= digit_value(nat_text(m)[q]));
        }
    }
}

/// Reads a chunk key back from its text. Exactly the texts that `key_of`
/// writes are accepted, each as the corner it was written from; any other
/// text is a `MalformedKey`.
pub fn parse_key(s: &str) -> (r: Result<ChunkKey, StreamError>)
    ensures
        r matches Ok(k) ==> s@ == key_text(k.0 as int, k.1 as int),
        forall|x: i32, z: i32| #[trigger] key_text(x as int, z as int) == s@
            ==> r == Ok::<ChunkKey, StreamError>((x, z)),
        r is Err ==> r == Err::<ChunkKey, StreamError>(StreamError::MalformedKey),
{
    let v = chars_of(s);
    let mut p: usize = 0;
    while p < v.len() && v[p] != '_'
        invariant
            p <= v@.len(),
            forall|q: int| 0 <= q < p ==> v@[q] != '_',
        decreases v@.len() - p,
    {
        p = p + 1;
    }
    // In the text of a key the first separator follows the text of `x`.
    proof {
        assert forall|x: i32, z: i32| #[trigger] key_text(x as int, z as int) == s@ implies
            p == int_text(x as int).len()
            && v@.subrange(0, p as int) == int_text(x as int)
            && v@.subrange(p + 1, v@.len() as int) == int_text(z as int) by {
            let tx = int_text(x as int);
            lemma_no_separator(x as int);
            assert(v@[tx.len() as int] == '_');
            if p < tx.len() {
                assert(v@[p as int] == tx[p as int]);
            }
            assert(v@.subrange(0, p as int) =~= tx);
            assert(v@.subrange(p + 1, v@.len() as int) =~= int_text(z as int));
        }
    }
    if p == v.len() {
        return Err(StreamError::MalformedKey);
    }
    match (parse_int(&v, 0, p), parse_int(&v, p + 1, v.len())) {
        (Some(x), Some(z)) => {
            let rendered = key_of((x, z));
            let text = String::from_str(s);
            if rendered == text {
                Ok((x, z))
            } else {
                Err(StreamError::MalformedKey)
            }
        },
        _ => Err(StreamError::MalformedKey),
    }
}

/// Distinct corners have distinct key texts, so a key names one chunk.
pub proof fn lemma_key_text_injective(x1: int, z1: int, x2: int, z2: int)
    requires
        key_text(x1, z1) == key_text(x2, z2),
    ensures
        x1 == x2,
        z1 == z2,
{
    let t1 = int_text(x1);
    let t2 = int_text(x2);
    let k = key_text(x1, z1);
    lemma_no_separator(x1);
    lemma_no_separator(x2);
    if t1.len() < t2.len() {
        assert(k[t1.len() as int] == '_');
        assert(k[t1.len() as int] == t2[t1.len() as int]);
    }
    if t2.len() < t1.len() {
        assert(k[t2.len() as int] == '_');
        assert(k[t2.len() as int] == t1[t2.len() as int]);
    }
    assert(t1 =~= k.subrange(0, t1.len() as int));
    assert(t2 =~= k.subrange(0, t2.len() as int));
    assert(int_text(z1) =~= k.subrange(t1.len() as int + 1, k.len() as int));
    assert(int_text(z2) =~= k.subrange(t2.len() as int + 1, k.len() as int));
    lemma_int_text_injective(x1, x2);
    lemma_int_text_injective(z1, z2);
}

proof fn lemma_int_text_injective(a: int, b: int)
    requires
        int_text(a) == int_text(b),
    ensures
        a == b,
{
    let t = int_text(a);
    lemma_text_shape(t, a);
    lemma_text_shape(t, b);
    let ma: nat = if a < 0 { (-a) as nat } else { a as nat };
    let mb: nat = if b < 0 { (-b) as nat } else { b as nat };
    lemma_nat_text(ma);
    lemma_nat_text(mb);
}

} // verus!
