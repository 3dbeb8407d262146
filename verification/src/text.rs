use vstd::prelude::*;

verus! {

/// Whether two strings hold the same characters (std's `==` on `str`).
#[verifier::external_body]
pub(crate) fn str_eq(a: &str, b: &str) -> (r: bool)
    ensures
        r == (a@ == b@),
{
    a == b
}

/// The characters of `s` in lower case, as Unicode defines it.
pub uninterp spec fn lowercase(s: Seq<char>) -> Seq<char>;

/// The characters of `s` in upper case, as Unicode defines it.
pub uninterp spec fn uppercase(s: Seq<char>) -> Seq<char>;

/// `str::to_lowercase`: the Unicode lower case of `s`, named `lowercase`.
#[verifier::external_body]
pub(crate) fn to_lowercase(s: &str) -> (r: String)
    ensures
        r@ == lowercase(s@),
{
    s.to_lowercase()
}

/// `str::to_uppercase`: the Unicode upper case of `s`, named `uppercase`.
#[verifier::external_body]
pub(crate) fn to_uppercase(s: &str) -> (r: String)
    ensures
        r@ == uppercase(s@),
{
    s.to_uppercase()
}

/// `String::push`: appends `c`.
#[verifier::external_body]
pub(crate) fn push_char(s: &mut String, c: char)
    ensures
        final(s)@ == old(s)@.push(c),
{
    s.push(c)
}

/// The Unicode `White_Space` characters, which `char::is_whitespace` tests for.
pub open spec fn is_space(c: char) -> bool {
    let u = c as u32;
    ||| 0x9 <= u <= 0xd
    ||| u == 0x20
    ||| u == 0x85
    ||| u == 0xa0
    ||| u == 0x1680
    ||| 0x2000 <= u <= 0x200a
    ||| u == 0x2028
    ||| u == 0x2029
    ||| u == 0x202f
    ||| u == 0x205f
    ||| u == 0x3000
}

/// Whether `c` is white space.
pub fn is_whitespace(c: char) -> (r: bool)
    ensures
        r == is_space(c),
{
    let u = c as u32;
    (0x9 <= u && u <= 0xd) || u == 0x20 || u == 0x85 || u == 0xa0 || u == 0x1680 || (0x2000 <= u
        && u <= 0x200a) || u == 0x2028 || u == 0x2029 || u == 0x202f || u == 0x205f || u == 0x3000
}

/// The words of `s`: its longest runs of characters that are not white
/// space, in order (what `str::split_whitespace` yields).
pub open spec fn words(s: Seq<char>) -> Seq<Seq<char>>
    decreases s.len(),
{
    if s.len() == 0 {
        Seq::empty()
    } else {
        let w = words(s.drop_last());
        let c = s.last();
        if is_space(c) {
            w
        } else if s.len() >= 2 && !is_space(s[s.len() - 2]) {
            w.update(w.len() - 1, w.last().push(c))
        } else {
            w.push(seq![c])
        }
    }
}

pub proof fn lemma_words_open(s: Seq<char>)
    requires
        s.len() >= 1,
        !is_space(s.last()),
    ensures
        words(s).len() >= 1,
    decreases s.len(),
{
    if s.len() >= 2 && !is_space(s[s.len() - 2]) {
        lemma_words_open(s.drop_last());
    }
}

/// The characters of each string.
pub open spec fn string_views(v: Seq<String>) -> Seq<Seq<char>> {
    v.map_values(|s: String| s@)
}

/// The words of `s` (`str::split_whitespace`).
pub fn split_words(s: &str) -> (r: Vec<String>)
    ensures
        string_views(r@) == words(s@),
{
    let n = s.unicode_len();
    let mut out: Vec<String> = Vec::new();
    let mut i: usize = 0;
    assert(s@.take(0) =~= Seq::<char>::empty());
    while i < n
        invariant
            n == s@.len(),
            i <= n,
            string_views(out@) == words(s@.take(i as int)),
        decreases n - i,
    {
        let c = s.get_char(i);
        let ghost pre = s@.take(i as int);
        let ghost cur = s@.take(i + 1);
        proof {
            assert(cur.drop_last() =~= pre);
            assert(cur.last() == c);
        }
        if !is_whitespace(c) {
            let continues = i > 0 && !is_whitespace(s.get_char(i - 1));
            if continues {
                proof {
                    assert(cur[cur.len() - 2] == s@[i - 1]);
                    assert(pre.last() == s@[i - 1]);
                    lemma_words_open(pre);
                }
                let mut last = out.pop().unwrap();
                push_char(&mut last, c);
                let ghost before = out@;
                out.push(last);
                proof {
                    assert(string_views(out@) =~= words(cur));
                }
            } else {
                let mut w = String::new();
                push_char(&mut w, c);
                let ghost before = out@;
                out.push(w);
                proof {
                    if i > 0 {
                        assert(cur[cur.len() - 2] == s@[i - 1]);
                    }
                    assert(string_views(out@) =~= words(cur));
                }
            }
        }
        i = i + 1;
    }
    assert(s@.take(n as int) =~= s@);
    out
}

pub open spec fn is_digit(c: char) -> bool {
    '0' <= c <= '9'
}

pub open spec fn digit_value(c: char) -> int {
    c as int - '0' as int
}

/// The number a string of decimal digits spells.
pub open spec fn decimal(s: Seq<char>) -> int
    decreases s.len(),
{
    if s.len() == 0 {
        0
    } else {
        decimal(s.drop_last()) * 10 + digit_value(s.last())
    }
}

pub open spec fn all_digits(s: Seq<char>) -> bool {
    forall|i: int| 0 <= i < s.len() ==> is_digit(#[trigger] s[i])
}

/// What `str::parse::<i32>` gives: an optional `+` or `-`, then one or more
/// decimal digits, whose value must fit in an `i32`.
pub open spec fn parse_i32_spec(s: Seq<char>) -> Option<i32> {
    let neg = s.len() > 0 && s[0] == '-';
    let d = if s.len() > 0 && (s[0] == '-' || s[0] == '+') {
        s.skip(1)
    } else {
        s
    };
    if d.len() == 0 || !all_digits(d) {
        None
    } else {
        let v = if neg {
            -decimal(d)
        } else {
            decimal(d)
        };
        if i32::MIN <= v <= i32::MAX {
            Some(v as i32)
        } else {
            None
        }
    }
}

pub proof fn lemma_decimal_nonneg(s: Seq<char>)
    requires
        all_digits(s),
    ensures
        decimal(s) >= 0,
    decreases s.len(),
{
    if s.len() > 0 {
        assert(all_digits(s.drop_last())) by {
            assert forall|i: int| 0 <= i < s.len() - 1 implies is_digit(#[trigger] s.drop_last()[i]) by {
                assert(s.drop_last()[i] == s[i]);
            }
        }
        lemma_decimal_nonneg(s.drop_last());
        assert(is_digit(s[s.len() - 1]));
    }
}

/// `s` read as an `i32` the way `str::parse::<i32>` reads it.
pub fn parse_i32(s: &str) -> (r: Option<i32>)
    ensures
        r == parse_i32_spec(s@),
{
    let n = s.unicode_len();
    if n == 0 {
        return None;
    }
    let first = s.get_char(0);
    let neg = first == '-';
    let start: usize = if first == '-' || first == '+' {
        1
    } else {
        0
    };
    let ghost d = if s@.len() > 0 && (s@[0] == '-' || s@[0] == '+') {
        s@.skip(1)
    } else {
        s@
    };
    proof {
        assert(d =~= s@.subrange(start as int, n as int));
    }
    if start == n {
        return None;
    }
    let mut acc: i64 = 0;
    let mut over = false;
    let mut i: usize = start;
    assert(d.take(0) =~= Seq::<char>::empty());
    while i < n
        invariant
            n == s@.len(),
            start <= i <= n,
            d =~= s@.subrange(start as int, n as int),
            d == (if s@.len() > 0 && (s@[0] == '-' || s@[0] == '+') {
                s@.skip(1)
            } else {
                s@
            }),
            neg == (s@.len() > 0 && s@[0] == '-'),
            d.len() > 0,
            all_digits(d.take(i - start)),
            !over ==> acc == decimal(d.take(i - start)) && 0 <= acc <= 0x8000_0000,
            over ==> decimal(d.take(i - start)) > 0x8000_0000,
        decreases n - i,
    {
        let c = s.get_char(i);
        let ghost pre = d.take(i - start);
        let ghost cur = d.take(i - start + 1);
        proof {
            assert(cur.drop_last() =~= pre);
            assert(cur.last() == c);
        }
        if !('0' <= c && c <= '9') {
            proof {
                assert(!is_digit(d[i - start]));
                assert(!all_digits(d));
                assert(d.len() != 0);
                assert(parse_i32_spec(s@) is None);
            }
            return None;
        }
        proof {
            assert(all_digits(cur)) by {
                assert forall|j: int| 0 <= j < cur.len() implies is_digit(#[trigger] cur[j]) by {
                    if j < cur.len() - 1 {
                        assert(cur[j] == pre[j]);
                    }
                }
            }
            lemma_decimal_nonneg(pre);
        }
        if !over {
            let dv = (c as u32 - '0' as u32) as i64;
            let next = acc * 10 + dv;
            if next > 0x8000_0000 {
                over = true;
            } else {
                acc = next;
            }
        }
        i = i + 1;
    }
    proof {
        assert(d.take(n - start) =~= d);
    }
    if over {
        return None;
    }
    if neg {
        Some((0 - acc) as i32)
    } else if acc <= 0x7fff_ffff {
        Some(acc as i32)
    } else {
        None
    }
}

/// The number of bytes of `c` in UTF-8.
pub open spec fn utf8_len(c: char) -> int {
    let u = c as u32;
    if u < 0x80 {
        1
    } else if u < 0x800 {
        2
    } else if u < 0x10000 {
        3
    } else {
        4
    }
}

/// The number of bytes of `s` in UTF-8.
pub open spec fn utf8_size(s: Seq<char>) -> int
    decreases s.len(),
{
    if s.len() == 0 {
        0
    } else {
        utf8_size(s.drop_last()) + utf8_len(s.last())
    }
}

/// The characters of `s` without its last `n` bytes: `None` where `s` has
/// fewer than `n` bytes or the cut falls inside a character (where slicing
/// a `str` there panics).
pub open spec fn drop_bytes(s: Seq<char>, n: int) -> Option<Seq<char>>
    decreases s.len(),
{
    if n == 0 {
        Some(s)
    } else if s.len() == 0 || n < 0 {
        None
    } else if utf8_len(s.last()) <= n {
        drop_bytes(s.drop_last(), n - utf8_len(s.last()))
    } else {
        None
    }
}

/// The number of bytes of `c` in UTF-8.
pub fn char_len_utf8(c: char) -> (r: usize)
    ensures
        r == utf8_len(c),
{
    let u = c as u32;
    if u < 0x80 {
        1
    } else if u < 0x800 {
        2
    } else if u < 0x10000 {
        3
    } else {
        4
    }
}

/// `s` without its last `n` bytes (`&s[..s.len() - n]`), where that cut is
/// possible.
pub fn drop_last_bytes(s: &str, n: usize) -> (r: Option<String>)
    ensures
        match r {
            Some(p) => drop_bytes(s@, n as int) == Some(p@),
            None => drop_bytes(s@, n as int) is None,
        },
{
    let len = s.unicode_len();
    let mut k: usize = len;
    let mut left: usize = n;
    assert(s@.take(len as int) =~= s@);
    while left > 0 && k > 0
        invariant
            len == s@.len(),
            k <= len,
            drop_bytes(s@.take(k as int), left as int) == drop_bytes(s@, n as int),
        decreases k,
    {
        let c = s.get_char(k - 1);
        let l = char_len_utf8(c);
        let ghost t = s@.take(k as int);
        proof {
            assert(t.drop_last() =~= s@.take(k - 1));
            assert(t.last() == c);
        }
        if l > left {
            return None;
        }
        left = left - l;
        k = k - 1;
    }
    if left > 0 {
        return None;
    }
    let p = s.substring_char(0, k);
    proof {
        assert(s@.subrange(0, k as int) =~= s@.take(k as int));
    }
    Some(String::from_str(p))
}

} // verus!
