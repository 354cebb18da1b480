//! Words, hexadecimal bytes and case folding: the lexical layer shared by both machines.

use vstd::prelude::*;

verus! {

/// The characters with the Unicode `White_Space` property.
pub open spec fn is_space(c: char) -> bool {
    let u = c as u32;
    ||| 0x09 <= u <= 0x0d
    ||| u == 0x20
    ||| u == 0x85
    ||| u == 0xa0
    ||| u == 0x1680
    ||| 0x2000 <= u <= 0x200a
    ||| u == 0x2028
    ||| u == 0x2029
    ||| u == 0x202f
    ||| u == 0x205f
    ||| u == 0x3000
}

/// Relies on `char::is_whitespace`: true exactly for the characters that have the
/// Unicode `White_Space` property.
#[verifier::external_body]
fn char_is_space(c: char) -> (r: bool)
    ensures
        r == is_space(c),
{
    c.is_whitespace()
}

/// Start and end (exclusive) of each maximal run of non-space characters, left to right.
pub open spec fn word_spans(s: Seq<char>) -> Seq<(int, int)>
    decreases s.len(),
{
    if s.len() == 0 {
        seq![]
    } else {
        let n = s.len() as int;
        let prev = word_spans(s.drop_last());
        if is_space(s.last()) {
            prev
        } else if n >= 2 && !is_space(s[n - 2]) {
            prev.update(prev.len() - 1, (prev.last().0, n))
        } else {
            prev.push((n - 1, n))
        }
    }
}

/// The words of a line: its maximal runs of non-space characters.
pub open spec fn words(s: Seq<char>) -> Seq<Seq<char>> {
    word_spans(s).map_values(|p: (int, int)| s.subrange(p.0, p.1))
}

/// The characters of each string.
pub open spec fn texts(v: Seq<&str>) -> Seq<Seq<char>> {
    v.map_values(|w: &str| w@)
}

/// Splits `s` into its words.
pub fn split_words<'a>(s: &'a str) -> (r: Vec<&'a str>)
    ensures
        texts(r@) == words(s@),
{
    let n = s.unicode_len();
    let mut spans: Vec<(usize, usize)> = Vec::new();
    let mut i: usize = 0;
    let mut prev_space = true;
    while i < n
        invariant
            n == s@.len(),
            i <= n,
            spans@.len() == word_spans(s@.take(i as int)).len(),
            forall|k: int|
                0 <= k < spans@.len() ==> spans@[k].0 as int == word_spans(s@.take(i as int))[k].0
                    && spans@[k].1 as int == word_spans(s@.take(i as int))[k].1,
            forall|k: int| 0 <= k < spans@.len() ==> (#[trigger] spans@[k]).0 < spans@[k].1 <= i,
            prev_space == (i == 0 || is_space(s@[i - 1])),
            !prev_space ==> spans@.len() > 0 && spans@.last().1 == i,
        decreases n - i,
    {
        let c = s.get_char(i);
        let space = char_is_space(c);
        proof {
            let t = s@.take(i as int + 1);
            assert(t.drop_last() =~= s@.take(i as int));
            assert(t.last() == c);
            if i >= 1 {
                assert(t[i - 1] == s@[i - 1]);
            }
        }
        if space {
        } else if !prev_space {
            let last = spans.len() - 1;
            let start = spans[last].0;
            spans.set(last, (start, i + 1));
        } else {
            spans.push((i, i + 1));
        }
        prev_space = space;
        i = i + 1;
    }
    assert(s@.take(n as int) =~= s@);
    let mut r: Vec<&'a str> = Vec::new();
    let mut k: usize = 0;
    while k < spans.len()
        invariant
            n == s@.len(),
            spans@.len() == word_spans(s@).len(),
            forall|j: int|
                0 <= j < spans@.len() ==> spans@[j].0 as int == word_spans(s@)[j].0
                    && spans@[j].1 as int == word_spans(s@)[j].1,
            forall|j: int| 0 <= j < spans@.len() ==> (#[trigger] spans@[j]).0 < spans@[j].1 <= n,
            k <= spans@.len(),
            r@.len() == k,
            forall|j: int| 0 <= j < k ==> r@[j]@ == words(s@)[j],
        decreases spans@.len() - k,
    {
        let w = s.substring_char(spans[k].0, spans[k].1);
        r.push(w);
        k = k + 1;
    }
    assert(texts(r@) =~= words(s@));
    r
}

/// Whether two strings hold the same characters.
pub fn same_text(a: &str, b: &str) -> (r: bool)
    ensures
        r == (a@ == b@),
{
    let n = a.unicode_len();
    if n != b.unicode_len() {
        return false;
    }
    let mut i: usize = 0;
    while i < n
        invariant
            n == a@.len(),
            n == b@.len(),
            i <= n,
            a@.take(i as int) == b@.take(i as int),
        decreases n - i,
    {
        if a.get_char(i) != b.get_char(i) {
            return false;
        }
        assert(a@.take(i as int + 1) =~= a@.take(i as int).push(a@[i as int]));
        assert(b@.take(i as int + 1) =~= b@.take(i as int).push(b@[i as int]));
        i = i + 1;
    }
    assert(a@ =~= a@.take(n as int));
    assert(b@ =~= b@.take(n as int));
    true
}

/// What `str::to_lowercase` makes of a string.
pub uninterp spec fn lower_of(s: Seq<char>) -> Seq<char>;

/// Relies on `str::to_lowercase`: the result depends on the characters alone.
#[verifier::external_body]
pub(crate) fn lowercase(s: &str) -> (r: String)
    ensures
        r@ == lower_of(s@),
{
    s.to_lowercase()
}

/// The value of a hexadecimal digit, upper or lower case.
pub open spec fn hex_digit(c: char) -> Option<nat> {
    let u = c as u32;
    if 0x30 <= u <= 0x39 {
        Some((u - 0x30) as nat)
    } else if 0x61 <= u <= 0x66 {
        Some((u - 0x61 + 10) as nat)
    } else if 0x41 <= u <= 0x46 {
        Some((u - 0x41 + 10) as nat)
    } else {
        None
    }
}

/// The value of a run of hexadecimal digits, most significant first.
pub open spec fn digits_value(d: Seq<char>) -> nat
    decreases d.len(),
{
    if d.len() == 0 {
        0
    } else {
        digits_value(d.drop_last()) * 16 + hex_digit(d.last()).unwrap_or(0)
    }
}

/// A run of hexadecimal digits of value at most 0xFF.
pub open spec fn digits_byte(d: Seq<char>) -> Option<u8> {
    if d.len() > 0 && (forall|i: int| 0 <= i < d.len() ==> hex_digit(#[trigger] d[i]) is Some)
        && digits_value(d) <= 0xff {
        Some(digits_value(d) as u8)
    } else {
        None
    }
}

/// A byte written in hexadecimal: one optional `+`, then at least one digit, of value
/// at most 0xFF.
pub open spec fn hex_byte(s: Seq<char>) -> Option<u8> {
    if s.len() > 0 && s[0] == '+' {
        digits_byte(s.drop_first())
    } else {
        digits_byte(s)
    }
}

fn digit_of(c: char) -> (r: Option<u32>)
    ensures
        r is Some <==> hex_digit(c) is Some,
        r is Some ==> r->0 as nat == hex_digit(c)->0 && r->0 < 16,
{
    let u = c as u32;
    if 0x30 <= u && u <= 0x39 {
        Some(u - 0x30)
    } else if 0x61 <= u && u <= 0x66 {
        Some(u - 0x61 + 10)
    } else if 0x41 <= u && u <= 0x46 {
        Some(u - 0x41 + 10)
    } else {
        None
    }
}

proof fn lemma_digits_step(d: Seq<char>, k: int)
    requires
        0 <= k < d.len(),
    ensures
        digits_value(d.take(k + 1)) == digits_value(d.take(k)) * 16 + hex_digit(d[k]).unwrap_or(0),
{
    let t = d.take(k + 1);
    assert(t.drop_last() =~= d.take(k));
}

/// Reads a byte written in hexadecimal.
pub fn parse_hex_byte(s: &str) -> (r: Option<u8>)
    ensures
        r == hex_byte(s@),
{
    let n = s.unicode_len();
    let start: usize = if n > 0 && s.get_char(0) == '+' { 1 } else { 0 };
    let ghost d = if s@.len() > 0 && s@[0] == '+' { s@.drop_first() } else { s@ };
    assert(d =~= s@.subrange(start as int, n as int));
    if start == n {
        return None;
    }
    let mut v: u32 = 0;
    let mut i: usize = start;
    while i < n
        invariant
            n == s@.len(),
            start <= i <= n,
            d == s@.subrange(start as int, n as int),
            hex_byte(s@) == digits_byte(d),
            forall|j: int| 0 <= j < i - start ==> hex_digit(#[trigger] d[j]) is Some,
            v <= 256,
            v < 256 ==> v as nat == digits_value(d.take(i - start)),
            v == 256 ==> digits_value(d.take(i - start)) >= 256,
        decreases n - i,
    {
        let c = s.get_char(i);
        let dg = digit_of(c);
        match dg {
            None => {
                assert(d[i - start] == c);
                assert(hex_digit(d[i - start]) is None);
                return None;
            },
            Some(h) => {
                proof {
                    lemma_digits_step(d, i - start);
                }
                v = if v * 16 + h > 256 { 256 } else { v * 16 + h };
                i = i + 1;
            },
        }
    }
    assert(d.take(n - start) =~= d);
    if v > 255 {
        None
    } else {
        Some(v as u8)
    }
}

} // verus!
