//! Text encodings used in the generated pages: percent-encoding of URLs,
//! escaping of HTML text, and decimal numbers.

use vstd::prelude::*;
use vstd::utf8::encode_utf8;

verus! {

/// Whether percent-encoding with the `CONTROLS` set rewrites a byte: the C0
/// controls, DEL, and every byte that is not ASCII.
pub open spec fn is_encoded_byte(b: u8) -> bool {
    b < 0x20 || b >= 0x7f
}

/// The upper-case hexadecimal digit of a value below sixteen.
pub open spec fn hex_digit(n: int) -> char {
    if n < 10 {
        (n + 48) as char
    } else {
        (n + 55) as char
    }
}

/// What one byte becomes: `%` and two hex digits, or the byte itself.
pub open spec fn percent_encode_byte(b: u8) -> Seq<char> {
    if is_encoded_byte(b) {
        seq!['%', hex_digit((b / 16) as int), hex_digit((b % 16) as int)]
    } else {
        seq![b as char]
    }
}

pub open spec fn percent_encode_bytes(bytes: Seq<u8>) -> Seq<char>
    decreases bytes.len(),
{
    if bytes.len() == 0 {
        Seq::empty()
    } else {
        percent_encode_byte(bytes[0]) + percent_encode_bytes(bytes.drop_first())
    }
}

/// The percent-encoding of the UTF-8 bytes of `s` with the `CONTROLS` set.
pub open spec fn spec_percent_encode(s: Seq<char>) -> Seq<char> {
    percent_encode_bytes(encode_utf8(s))
}

/// What one character becomes in escaped HTML text.
pub open spec fn html_escape_char(c: char) -> Seq<char> {
    if c == '"' {
        seq!['&', 'q', 'u', 'o', 't', ';']
    } else if c == '&' {
        seq!['&', 'a', 'm', 'p', ';']
    } else if c == '\'' {
        seq!['&', '#', 'x', '2', '7', ';']
    } else if c == '/' {
        seq!['&', '#', 'x', '2', 'f', ';']
    } else if c == '<' {
        seq!['&', 'l', 't', ';']
    } else if c == '>' {
        seq!['&', 'g', 't', ';']
    } else {
        seq![c]
    }
}

/// `s` with each of `"`, `&`, `'`, `/`, `<` and `>` replaced by its entity.
pub open spec fn spec_escape_html(s: Seq<char>) -> Seq<char>
    decreases s.len(),
{
    if s.len() == 0 {
        Seq::empty()
    } else {
        spec_escape_html(s.drop_last()) + html_escape_char(s.last())
    }
}

/// The decimal digit of a value below ten.
pub open spec fn digit_char(d: int) -> char {
    (d + 48) as char
}

/// The decimal notation of `n`, without leading zeros.
pub open spec fn spec_decimal(n: nat) -> Seq<char>
    decreases n,
{
    if n < 10 {
        seq![digit_char(n as int)]
    } else {
        spec_decimal(n / 10).push(digit_char((n % 10) as int))
    }
}

/// Calls `percent_encoding::utf8_percent_encode` with the `CONTROLS` set and
/// collects the result. Claimed of it, as its source shows: each byte of the
/// UTF-8 encoding of `s` that is a C0 control, DEL or not ASCII becomes `%`
/// and two upper-case hex digits, and every other byte stays as it is.
#[verifier::external_body]
pub(crate) fn percent_encode_controls(s: &str) -> (r: String)
    ensures
        r@ == spec_percent_encode(s@),
{
    percent_encoding::utf8_percent_encode(s, percent_encoding::CONTROLS).to_string()
}

/// Calls `v_htmlescape::escape` and writes out what it displays. Claimed of
/// it, as its escape table shows: `"`, `&`, `'`, `/`, `<` and `>` become `&quot;`,
/// `&amp;`, `&#x27;`, `&#x2f;`, `&lt;` and `&gt;`, and everything else is
/// copied unchanged.
#[verifier::external_body]
pub(crate) fn escape_html(s: &str) -> (r: String)
    ensures
        r@ == spec_escape_html(s@),
{
    v_htmlescape::escape(s).to_string()
}

fn digit_str(d: u64) -> (r: &'static str)
    requires
        d < 10,
    ensures
        r@ == seq![digit_char(d as int)],
{
    match d {
        0 => {
            proof {
                reveal_strlit("0");
            }
            "0"
        },
        1 => {
            proof {
                reveal_strlit("1");
            }
            "1"
        },
        2 => {
            proof {
                reveal_strlit("2");
            }
            "2"
        },
        3 => {
            proof {
                reveal_strlit("3");
            }
            "3"
        },
        4 => {
            proof {
                reveal_strlit("4");
            }
            "4"
        },
        5 => {
            proof {
                reveal_strlit("5");
            }
            "5"
        },
        6 => {
            proof {
                reveal_strlit("6");
            }
            "6"
        },
        7 => {
            proof {
                reveal_strlit("7");
            }
            "7"
        },
        8 => {
            proof {
                reveal_strlit("8");
            }
            "8"
        },
        _ => {
            proof {
                reveal_strlit("9");
            }
            "9"
        },
    }
}

/// The decimal notation of `n`, as `format!("{}", n)` writes it.
pub fn decimal(n: u64) -> (r: String)
    ensures
        r@ == spec_decimal(n as nat),
    decreases n,
{
    if n < 10 {
        digit_str(n).to_owned()
    } else {
        let mut s = decimal(n / 10);
        s.append(digit_str(n % 10));
        s
    }
}


/// `t` begins `s`.
pub open spec fn begins_with(s: Seq<char>, t: Seq<char>) -> bool {
    t.len() <= s.len() && s.take(t.len() as int) == t
}

/// `t` ends `s`.
pub open spec fn ends_with(s: Seq<char>, t: Seq<char>) -> bool {
    t.len() <= s.len() && s.skip(s.len() - t.len()) == t
}

/// `t` stands in `s` somewhere.
pub open spec fn occurs_in(s: Seq<char>, t: Seq<char>) -> bool {
    exists|i: int| 0 <= i && i + t.len() <= s.len() && #[trigger] s.subrange(i, i + t.len()) == t
}

/// A character that can neither open or close markup nor end a quoted
/// attribute value.
pub open spec fn is_inert(c: char) -> bool {
    c != '<' && c != '>' && c != '"' && c != '\''
}

proof fn lemma_escape_char_inert(c: char)
    ensures
        forall|i: int| 0 <= i < html_escape_char(c).len() ==> is_inert(#[trigger] html_escape_char(c)[i]),
{
    let e = html_escape_char(c);
    assert forall|i: int| 0 <= i < e.len() implies is_inert(#[trigger] e[i]) by {
        if c == '"' || c == '&' || c == '\'' || c == '/' || c == '<' || c == '>' {
            assert(e[0] == '&');
            assert(i == 0 || e[i] != '<');
        }
    }
}

/// Escaped HTML text holds no `<`, `>`, `"` or `'`: it cannot open or close
/// a tag, nor leave a quoted attribute value.
pub proof fn lemma_escaped_html_is_inert(s: Seq<char>)
    ensures
        forall|i: int|
            0 <= i < spec_escape_html(s).len() ==> is_inert(#[trigger] spec_escape_html(s)[i]),
    decreases s.len(),
{
    if s.len() > 0 {
        lemma_escaped_html_is_inert(s.drop_last());
        lemma_escape_char_inert(s.last());
        let a = spec_escape_html(s.drop_last());
        let b = html_escape_char(s.last());
        assert forall|i: int| 0 <= i < spec_escape_html(s).len() implies is_inert(
            #[trigger] spec_escape_html(s)[i],
        ) by {
            if i < a.len() {
                assert(spec_escape_html(s)[i] == a[i]);
            } else {
                assert(spec_escape_html(s)[i] == b[i - a.len()]);
            }
        }
    }
}

/// A printable ASCII character: neither a control character nor DEL nor
/// outside ASCII.
pub open spec fn is_printable_ascii(c: char) -> bool {
    0x20 <= (c as int) < 0x7f
}

proof fn lemma_encode_byte_printable(b: u8)
    ensures
        forall|i: int|
            0 <= i < percent_encode_byte(b).len() ==> is_printable_ascii(
                #[trigger] percent_encode_byte(b)[i],
            ),
{
    let e = percent_encode_byte(b);
    let hi = (b / 16) as int;
    let lo = (b % 16) as int;
    assert(0 <= hi < 16 && 0 <= lo < 16);
    assert(is_printable_ascii(hex_digit(hi)));
    assert(is_printable_ascii(hex_digit(lo)));
    assert(is_printable_ascii('%'));
    if !is_encoded_byte(b) {
        assert(is_printable_ascii(b as char));
    }
}

proof fn lemma_encode_bytes_printable(bytes: Seq<u8>)
    ensures
        forall|i: int|
            0 <= i < percent_encode_bytes(bytes).len() ==> is_printable_ascii(
                #[trigger] percent_encode_bytes(bytes)[i],
            ),
    decreases bytes.len(),
{
    if bytes.len() > 0 {
        lemma_encode_bytes_printable(bytes.drop_first());
        lemma_encode_byte_printable(bytes[0]);
        let a = percent_encode_byte(bytes[0]);
        let r = percent_encode_bytes(bytes.drop_first());
        assert forall|i: int| 0 <= i < percent_encode_bytes(bytes).len() implies is_printable_ascii(
            #[trigger] percent_encode_bytes(bytes)[i],
        ) by {
            if i < a.len() {
                assert(percent_encode_bytes(bytes)[i] == a[i]);
            } else {
                assert(percent_encode_bytes(bytes)[i] == r[i - a.len()]);
            }
        }
    }
}

/// A percent-encoded string holds printable ASCII only: no control
/// character, no DEL, nothing outside ASCII.
pub proof fn lemma_percent_encoded_is_printable(s: Seq<char>)
    ensures
        forall|i: int|
            0 <= i < spec_percent_encode(s).len() ==> is_printable_ascii(
                #[trigger] spec_percent_encode(s)[i],
            ),
{
    lemma_encode_bytes_printable(encode_utf8(s));
}

/// A decimal notation is not empty and holds digits only.
pub proof fn lemma_decimal_is_digits(n: nat)
    ensures
        spec_decimal(n).len() > 0,
        forall|i: int|
            0 <= i < spec_decimal(n).len() ==> 0x30 <= (#[trigger] spec_decimal(n)[i] as int) <= 0x39,
    decreases n,
{
    if n >= 10 {
        lemma_decimal_is_digits(n / 10);
        let a = spec_decimal(n / 10);
        let d = digit_char((n % 10) as int);
        assert(0x30 <= (d as int) <= 0x39);
        assert forall|i: int| 0 <= i < spec_decimal(n).len() implies 0x30 <= (
        #[trigger] spec_decimal(n)[i] as int) <= 0x39 by {
            if i < a.len() {
                assert(spec_decimal(n)[i] == a[i]);
            }
        }
    } else {
        assert(0x30 <= (digit_char(n as int) as int) <= 0x39);
    }
}


/// The number that a string of decimal digits stands for.
pub open spec fn digits_value(s: Seq<char>) -> int
    decreases s.len(),
{
    if s.len() == 0 {
        0
    } else {
        digits_value(s.drop_last()) * 10 + ((s.last() as int) - 48)
    }
}

/// The decimal notation of `n` stands for `n`, and has no leading zero.
pub proof fn lemma_decimal_value(n: nat)
    ensures
        digits_value(spec_decimal(n)) == n,
        n > 0 ==> spec_decimal(n)[0] != '0',
    decreases n,
{
    if n < 10 {
        let d = spec_decimal(n);
        assert(d.drop_last() =~= Seq::<char>::empty());
        assert(digits_value(d.drop_last()) == 0);
    } else {
        lemma_decimal_value(n / 10);
        let d = spec_decimal(n);
        assert(d.drop_last() =~= spec_decimal(n / 10));
        assert(d[0] == spec_decimal(n / 10)[0]);
        assert((n / 10) * 10 + n % 10 == n) by (nonlinear_arith);
    }
}


/// Escaping works character by character: the escape of two texts one after
/// the other is the two escapes one after the other.
pub proof fn lemma_escape_html_concat(a: Seq<char>, b: Seq<char>)
    ensures
        spec_escape_html(a + b) == spec_escape_html(a) + spec_escape_html(b),
    decreases b.len(),
{
    if b.len() == 0 {
        assert(a + b =~= a);
        assert(spec_escape_html(a) + spec_escape_html(b) =~= spec_escape_html(a));
    } else {
        lemma_escape_html_concat(a, b.drop_last());
        assert((a + b).drop_last() =~= a + b.drop_last());
        assert((a + b).last() == b.last());
        assert(spec_escape_html(a + b) =~= spec_escape_html(a) + spec_escape_html(b));
    }
}

/// Text without any of `"`, `&`, `'`, `/`, `<` and `>` is left as it is.
pub proof fn lemma_escape_html_keeps_plain_text(s: Seq<char>)
    requires
        forall|i: int|
            0 <= i < s.len() ==> #[trigger] s[i] != '"' && s[i] != '&' && s[i] != '\'' && s[i] != '/'
                && s[i] != '<' && s[i] != '>',
    ensures
        spec_escape_html(s) == s,
    decreases s.len(),
{
    if s.len() > 0 {
        lemma_escape_html_keeps_plain_text(s.drop_last());
        assert(s[s.len() - 1] != '"');
        assert(s.drop_last().push(s.last()) =~= s);
        assert(spec_escape_html(s) =~= s);
    } else {
        assert(s =~= Seq::<char>::empty());
    }
}

} // verus!
