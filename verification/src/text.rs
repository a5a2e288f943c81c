use vstd::prelude::*;
use vstd::string::*;

verus! {

/// Whether two strings hold the same characters.
pub fn str_equals(a: &str, b: &str) -> (r: bool)
    ensures
        r == (a@ == b@),
{
    let n = a.unicode_len();
    let m = b.unicode_len();
    if n != m {
        return false;
    }
    let mut i: usize = 0;
    while i < n
        invariant
            n == a@.len(),
            m == b@.len(),
            n == m,
            i <= n,
            forall|j: int| 0 <= j < i ==> a@[j] == b@[j],
        decreases n - i,
    {
        if a.get_char(i) != b.get_char(i) {
            return false;
        }
        i = i + 1;
    }
    proof {
        assert(a@ =~= b@);
    }
    true
}

/// The character of a decimal digit.
pub open spec fn digit_char(d: nat) -> char {
        if d == 0 {
            '0'
        } else if d == 1 {
            '1'
        } else if d == 2 {
            '2'
        } else if d == 3 {
            '3'
        } else if d == 4 {
            '4'
        } else if d == 5 {
            '5'
        } else if d == 6 {
            '6'
        } else if d == 7 {
            '7'
        } else if d == 8 {
            '8'
        } else {
            '9'
        }
}

/// The decimal writing of a number, without leading zeros.
pub open spec fn decimal(v: nat) -> Seq<char>
    decreases v,
{
    if v < 10 {
        seq![digit_char(v)]
    } else {
        decimal(v / 10).push(digit_char(v % 10))
    }
}

fn digit_str(d: u8) -> (s: &'static str)
    requires
        d < 10,
    ensures
        s@ == seq![digit_char(d as nat)],
{
    match d {
        0 => {
            proof {
                reveal_strlit("0");
            }
            "0"
        },
        1 => {
            proof {
                reveal_strlit("1");
            }
            "1"
        },
        2 => {
            proof {
                reveal_strlit("2");
            }
            "2"
        },
        3 => {
            proof {
                reveal_strlit("3");
            }
            "3"
        },
        4 => {
            proof {
                reveal_strlit("4");
            }
            "4"
        },
        5 => {
            proof {
                reveal_strlit("5");
            }
            "5"
        },
        6 => {
            proof {
                reveal_strlit("6");
            }
            "6"
        },
        7 => {
            proof {
                reveal_strlit("7");
            }
            "7"
        },
        8 => {
            proof {
                reveal_strlit("8");
            }
            "8"
        },
        _ => {
            proof {
                reveal_strlit("9");
            }
            "9"
        },
    }
}

/// The decimal text of a byte, as `to_string` writes it.
pub fn u8_to_string(v: u8) -> (s: String)
    ensures
        s@ == decimal(v as nat),
{
    proof {
        reveal_with_fuel(decimal, 3);
    }
    if v >= 100 {
        let mut s = String::from_str(digit_str(v / 100));
        s.append(digit_str((v / 10) % 10));
        s.append(digit_str(v % 10));
        s
    } else if v >= 10 {
        let mut s = String::from_str(digit_str(v / 10));
        s.append(digit_str(v % 10));
        s
    } else {
        String::from_str(digit_str(v))
    }
}

/// The first `k` characters of `a` and `b` agree.
pub open spec fn agree_below(a: Seq<char>, b: Seq<char>, k: int) -> bool {
    forall|m: int| 0 <= m < k ==> #[trigger] a[m] == #[trigger] b[m]
}

/// `a` comes before `b`, or equals it, in the lexicographic order of their
/// characters: `a` is a prefix of `b`, or at the first place where they
/// differ `a` has the smaller character. For UTF-8 text this is the order of
/// `str`'s `cmp`, which compares the bytes.
pub open spec fn lex_le(a: Seq<char>, b: Seq<char>) -> bool {
    ||| (a.len() <= b.len() && agree_below(a, b, a.len() as int))
    ||| exists|k: int|
        0 <= k < a.len() && k < b.len() && agree_below(a, b, k) && #[trigger] a[k] < #[trigger] b[k]
}

/// Any two texts are ordered one way or the other.
pub proof fn lemma_lex_total(a: Seq<char>, b: Seq<char>)
    ensures
        lex_le(a, b) || lex_le(b, a),
{
    let n = if a.len() <= b.len() { a.len() as int } else { b.len() as int };
    if agree_below(a, b, n) {
        if a.len() <= b.len() {
            assert(agree_below(a, b, a.len() as int));
        } else {
            assert(agree_below(b, a, b.len() as int));
        }
    } else {
        let k = choose|k: int| 0 <= k < n && a[k] != b[k];
        lemma_first_difference(a, b, k);
    }
}

proof fn lemma_first_difference(a: Seq<char>, b: Seq<char>, k: int)
    requires
        0 <= k < a.len(),
        k < b.len(),
        a[k] != b[k],
    ensures
        lex_le(a, b) || lex_le(b, a),
    decreases k,
{
    if agree_below(a, b, k) {
        assert(agree_below(b, a, k));
        if a[k] < b[k] {
            assert(lex_le(a, b));
        } else {
            assert(b[k] < a[k]);
            assert(lex_le(b, a));
        }
    } else {
        let j = choose|j: int| 0 <= j < k && a[j] != b[j];
        lemma_first_difference(a, b, j);
    }
}

/// The order is transitive.
pub proof fn lemma_lex_trans(a: Seq<char>, b: Seq<char>, c: Seq<char>)
    requires
        lex_le(a, b),
        lex_le(b, c),
    ensures
        lex_le(a, c),
{
    let ab_prefix = a.len() <= b.len() && agree_below(a, b, a.len() as int);
    let bc_prefix = b.len() <= c.len() && agree_below(b, c, b.len() as int);
    if ab_prefix && bc_prefix {
        assert forall|m: int| 0 <= m < a.len() implies #[trigger] a[m] == #[trigger] c[m] by {
            assert(a[m] == b[m] && b[m] == c[m]);
        }
    } else if ab_prefix {
        let k2 = choose|k: int|
            0 <= k < b.len() && k < c.len() && agree_below(b, c, k) && #[trigger] b[k] < #[trigger] c[k];
        if k2 >= a.len() {
            assert forall|m: int| 0 <= m < a.len() implies #[trigger] a[m] == #[trigger] c[m] by {
                assert(a[m] == b[m] && b[m] == c[m]);
            }
        } else {
            assert forall|m: int| 0 <= m < k2 implies #[trigger] a[m] == #[trigger] c[m] by {
                assert(a[m] == b[m] && b[m] == c[m]);
            }
            assert(a[k2] == b[k2]);
            assert(a[k2] < c[k2]);
        }
    } else if bc_prefix {
        let k1 = choose|k: int|
            0 <= k < a.len() && k < b.len() && agree_below(a, b, k) && #[trigger] a[k] < #[trigger] b[k];
        assert forall|m: int| 0 <= m < k1 implies #[trigger] a[m] == #[trigger] c[m] by {
            assert(a[m] == b[m] && b[m] == c[m]);
        }
        assert(b[k1] == c[k1]);
        assert(a[k1] < c[k1]);
    } else {
        let k1 = choose|k: int|
            0 <= k < a.len() && k < b.len() && agree_below(a, b, k) && #[trigger] a[k] < #[trigger] b[k];
        let k2 = choose|k: int|
            0 <= k < b.len() && k < c.len() && agree_below(b, c, k) && #[trigger] b[k] < #[trigger] c[k];
        let k = if k1 <= k2 { k1 } else { k2 };
        assert forall|m: int| 0 <= m < k implies #[trigger] a[m] == #[trigger] c[m] by {
            assert(a[m] == b[m] && b[m] == c[m]);
        }
        if k1 < k2 {
            assert(b[k1] == c[k1]);
        } else if k2 < k1 {
            assert(a[k2] == b[k2]);
        }
        assert(a[k] < c[k]);
    }
}

/// Texts that are ordered both ways are equal.
pub proof fn lemma_lex_antisym(a: Seq<char>, b: Seq<char>)
    requires
        lex_le(a, b),
        lex_le(b, a),
    ensures
        a == b,
{
    if exists|k: int| 0 <= k < a.len() && k < b.len() && agree_below(a, b, k) && #[trigger] a[k] < #[trigger] b[k] {
        let k = choose|k: int|
            0 <= k < a.len() && k < b.len() && agree_below(a, b, k) && #[trigger] a[k] < #[trigger] b[k];
        if exists|j: int| 0 <= j < b.len() && j < a.len() && agree_below(b, a, j) && #[trigger] b[j] < #[trigger] a[j] {
            let j = choose|j: int|
                0 <= j < b.len() && j < a.len() && agree_below(b, a, j) && #[trigger] b[j] < #[trigger] a[j];
            if j < k {
                assert(a[j] == b[j]);
            } else if k < j {
                assert(b[k] == a[k]);
            }
        } else {
            assert(b[k] == a[k]);
        }
    } else if exists|j: int| 0 <= j < b.len() && j < a.len() && agree_below(b, a, j) && #[trigger] b[j] < #[trigger] a[j] {
        let j = choose|j: int|
            0 <= j < b.len() && j < a.len() && agree_below(b, a, j) && #[trigger] b[j] < #[trigger] a[j];
        assert(a[j] == b[j]);
    } else {
        assert(a =~= b);
    }
}

/// Whether `a` comes before `b`, or equals it, in the order of `str`.
pub fn name_le(a: &str, b: &str) -> (r: bool)
    ensures
        r == lex_le(a@, b@),
{
    let n = a.unicode_len();
    let m = b.unicode_len();
    let mut i: usize = 0;
    while i < n && i < m
        invariant
            n == a@.len(),
            m == b@.len(),
            i <= n,
            i <= m,
            agree_below(a@, b@, i as int),
        decreases n - i,
    {
        let ca = a.get_char(i);
        let cb = b.get_char(i);
        if ca != cb {
            if ca < cb {
                assert(lex_le(a@, b@));
                return true;
            } else {
                proof {
                    assert(agree_below(b@, a@, i as int));
                    assert(lex_le(b@, a@));
                    if lex_le(a@, b@) {
                        lemma_lex_antisym(a@, b@);
                    }
                }
                return false;
            }
        }
        i = i + 1;
    }
    if n <= m {
        true
    } else {
        proof {
            assert(agree_below(b@, a@, b@.len() as int));
            assert(lex_le(b@, a@));
            if lex_le(a@, b@) {
                lemma_lex_antisym(a@, b@);
            }
        }
        false
    }
}

/// The text before the first `|`, or all of it where there is none.
pub open spec fn before_bar(s: Seq<char>) -> Seq<char>
    decreases s.len(),
{
    if s.len() == 0 {
        s
    } else if s[0] == '|' {
        Seq::empty()
    } else {
        seq![s[0]] + before_bar(s.drop_first())
    }
}

/// The first field of a `|`-separated text, as `split("|").nth(0)` gives it.
pub fn first_field(data: &str) -> (r: &str)
    ensures
        r@ == before_bar(data@),
{
    let n = data.unicode_len();
    let mut i: usize = 0;
    proof {
        assert(data@.skip(0) =~= data@);
        assert(data@.take(0) + before_bar(data@) =~= before_bar(data@));
    }
    while i < n
        invariant
            n == data@.len(),
            i <= n,
            before_bar(data@) == data@.take(i as int) + before_bar(data@.skip(i as int)),
        decreases n - i,
    {
        if data.get_char(i) == '|' {
            proof {
                assert(data@.skip(i as int)[0] == '|');
                assert(before_bar(data@.skip(i as int)) =~= Seq::<char>::empty());
                assert(data@.take(i as int) + Seq::<char>::empty() =~= data@.take(i as int));
            }
            return data.substring_char(0, i);
        }
        proof {
            let t = data@.skip(i as int);
            assert(t[0] == data@[i as int]);
            assert(t.drop_first() =~= data@.skip(i + 1));
            assert(data@.take(i as int) + seq![t[0]] =~= data@.take(i + 1));
            assert(data@.take(i as int) + (seq![t[0]] + before_bar(t.drop_first())) =~= data@.take(i + 1)
                + before_bar(data@.skip(i + 1)));
        }
        i = i + 1;
    }
    proof {
        assert(data@.skip(n as int).len() == 0);
        assert(data@.take(n as int) + before_bar(data@.skip(n as int)) =~= data@);
    }
    data.substring_char(0, n)
}

/// A decimal digit.
pub open spec fn is_digit(c: char) -> bool {
    '0' <= c && c <= '9'
}

/// Every character is a decimal digit.
pub open spec fn all_digits(s: Seq<char>) -> bool {
    forall|i: int| 0 <= i < s.len() ==> is_digit(#[trigger] s[i])
}

/// The number that decimal digits write.
pub open spec fn digits_value(s: Seq<char>) -> int
    decreases s.len(),
{
    if s.len() == 0 {
        0
    } else {
        digits_value(s.drop_last()) * 10 + ((s.last() as int) - ('0' as int))
    }
}

/// What `str::parse::<u8>` makes of a text: an optional `+`, then one or
/// more decimal digits writing a number of at most 255; anything else
/// (nothing, a sign alone, another character, a larger number) fails.
pub open spec fn parsed_u8(s: Seq<char>) -> Option<u8> {
    let t = if s.len() > 0 && s[0] == '+' { s.drop_first() } else { s };
    if t.len() > 0 && all_digits(t) && digits_value(t) <= 255 {
        Some(digits_value(t) as u8)
    } else {
        None
    }
}

/// Reads a byte written in decimal, as `str::parse::<u8>` does.
pub fn parse_u8(s: &str) -> (r: Option<u8>)
    ensures
        r == parsed_u8(s@),
{
    let n = s.unicode_len();
    let mut start: usize = 0;
    if n > 0 && s.get_char(0) == '+' {
        start = 1;
    }
    let ghost t = s@.skip(start as int);
    proof {
        if n > 0 && s@[0] == '+' {
            assert(t =~= s@.drop_first());
        } else {
            assert(t =~= s@);
        }
    }
    if start == n {
        return None;
    }
    let mut acc: u32 = 0;
    let mut i: usize = start;
    proof {
        assert(t.take(0) =~= Seq::<char>::empty());
    }
    while i < n
        invariant
            n == s@.len(),
            start <= i <= n,
            t == s@.skip(start as int),
            t == (if s@.len() > 0 && s@[0] == '+' { s@.drop_first() } else { s@ }),
            all_digits(t.take(i - start)),
            digits_value(t.take(i - start)) >= 0,
            acc as int == if digits_value(t.take(i - start)) < 256 {
                digits_value(t.take(i - start))
            } else {
                256
            },
        decreases n - i,
    {
        let c = s.get_char(i);
        let ghost k = (i - start) as int;
        proof {
            assert(t[k] == s@[i as int]);
        }
        if !('0' <= c && c <= '9') {
            proof {
                assert(!is_digit(t[k]));
            }
            return None;
        }
        let d = (c as u32) - ('0' as u32);
        acc = acc * 10 + d;
        if acc > 256 {
            acc = 256;
        }
        proof {
            assert(t.take(k + 1).drop_last() =~= t.take(k));
            assert(t.take(k + 1).last() == c);
            assert forall|j: int| 0 <= j < k + 1 implies is_digit(#[trigger] t.take(k + 1)[j]) by {
                if j < k {
                    assert(t.take(k + 1)[j] == t.take(k)[j]);
                }
            }
        }
        i = i + 1;
    }
    proof {
        assert(t.take(n - start) =~= t);
    }
    if acc <= 255 {
        Some(acc as u8)
    } else {
        None
    }
}

} // verus!
