//! Best-effort decoding of chart files into text: byte-order-mark
//! sniffing, a heuristic for mark-less little-endian UTF-16, and the
//! whitespace and newline cleanup applied before the text is parsed.

use vstd::prelude::*;

use vstd::string::StrSliceExecFns;
use vstd::string::StringExecFns;

verus! {

/// What UTF-16LE decoding (with a leading byte-order mark removed) makes
/// of a byte sequence.
pub uninterp spec fn utf16le_decoded(bytes: Seq<u8>) -> Seq<char>;

/// What UTF-16BE decoding (with a leading byte-order mark removed) makes
/// of a byte sequence.
pub uninterp spec fn utf16be_decoded(bytes: Seq<u8>) -> Seq<char>;

/// What UTF-16LE decoding without byte-order-mark handling makes of a byte
/// sequence.
pub uninterp spec fn utf16le_raw_decoded(bytes: Seq<u8>) -> Seq<char>;

/// What UTF-8 decoding (replacing ill-formed sequences, with a leading
/// byte-order mark removed) makes of a byte sequence.
pub uninterp spec fn utf8_decoded(bytes: Seq<u8>) -> Seq<char>;

/// Relies on `encoding_rs::UTF_16LE.decode_with_bom_removal`: the decoded
/// text is a function of the bytes alone; an empty input decodes to empty
/// text. The length bound keeps the decoder's buffer-size arithmetic, which
/// would panic on overflow, far from `usize`.
#[verifier::external_body]
fn decode_utf16le(bytes: &[u8]) -> (r: String)
    requires
        bytes@.len() <= 0x1000_0000_0000_0000,
    ensures
        r@ == utf16le_decoded(bytes@),
        bytes@.len() == 0 ==> r@.len() == 0,
{
    let (cow, _had_errors) = encoding_rs::UTF_16LE.decode_with_bom_removal(bytes);
    cow.into_owned()
}

/// Relies on `encoding_rs::UTF_16BE.decode_with_bom_removal`: the decoded
/// text is a function of the bytes alone; an empty input decodes to empty
/// text.
#[verifier::external_body]
fn decode_utf16be(bytes: &[u8]) -> (r: String)
    requires
        bytes@.len() <= 0x1000_0000_0000_0000,
    ensures
        r@ == utf16be_decoded(bytes@),
        bytes@.len() == 0 ==> r@.len() == 0,
{
    let (cow, _had_errors) = encoding_rs::UTF_16BE.decode_with_bom_removal(bytes);
    cow.into_owned()
}

/// Relies on `encoding_rs::UTF_16LE.decode_without_bom_handling`: the
/// decoded text is a function of the bytes alone; an empty input decodes
/// to empty text.
#[verifier::external_body]
fn decode_utf16le_raw(bytes: &[u8]) -> (r: String)
    requires
        bytes@.len() <= 0x1000_0000_0000_0000,
    ensures
        r@ == utf16le_raw_decoded(bytes@),
        bytes@.len() == 0 ==> r@.len() == 0,
{
    let (cow, _had_errors) = encoding_rs::UTF_16LE.decode_without_bom_handling(bytes);
    cow.into_owned()
}

/// Relies on `encoding_rs::UTF_8.decode_with_bom_removal`: the decoded
/// text is a function of the bytes alone; an empty input decodes to empty
/// text.
#[verifier::external_body]
fn decode_utf8(bytes: &[u8]) -> (r: String)
    requires
        bytes@.len() <= 0x1000_0000_0000_0000,
    ensures
        r@ == utf8_decoded(bytes@),
        bytes@.len() == 0 ==> r@.len() == 0,
{
    let (cow, _had_errors) = encoding_rs::UTF_8.decode_with_bom_removal(bytes);
    cow.into_owned()
}

/// Which decoding the byte-order sniffing picks for a chart file's bytes.
pub open spec fn sniffed_text(bytes: Seq<u8>) -> Seq<char> {
    if bytes.len() >= 2 && bytes[0] == 0xffu8 && bytes[1] == 0xfeu8 {
        utf16le_decoded(bytes)
    } else if bytes.len() >= 2 && bytes[0] == 0xfeu8 && bytes[1] == 0xffu8 {
        utf16be_decoded(bytes)
    } else if bytes.len() >= 3 && bytes[0] == 0xefu8 && bytes[1] == 0xbbu8 && bytes[2] == 0xbfu8 {
        utf8_decoded(bytes)
    } else if bytes.len() >= 4 && bytes[1] == 0u8 && bytes[3] == 0u8 && bytes[0] != 0u8
        && bytes[2] != 0u8 {
        utf16le_raw_decoded(bytes)
    } else {
        utf8_decoded(bytes)
    }
}

/// Decodes a chart file's bytes into text: honours UTF-16 and UTF-8
/// byte-order marks, guesses mark-less little-endian UTF-16 from zero
/// high bytes over the first two code units, and otherwise reads the bytes
/// as UTF-8 with lossy replacement.
pub fn decode_text_best_effort(bytes: &Vec<u8>) -> (r: String)
    requires
        bytes@.len() <= 0x1000_0000_0000_0000,
    ensures
        r@ == sniffed_text(bytes@),
{
    let n = bytes.len();
    if n >= 2 {
        let b0 = bytes[0];
        let b1 = bytes[1];
        if b0 == 0xff && b1 == 0xfe {
            return decode_utf16le(bytes.as_slice());
        }
        if b0 == 0xfe && b1 == 0xff {
            return decode_utf16be(bytes.as_slice());
        }
    }
    if n >= 3 && bytes[0] == 0xef && bytes[1] == 0xbb && bytes[2] == 0xbf {
        return decode_utf8(bytes.as_slice());
    }
    if n >= 4 && bytes[1] == 0 && bytes[3] == 0 && bytes[0] != 0 && bytes[2] != 0 {
        return decode_utf16le_raw(bytes.as_slice());
    }
    decode_utf8(bytes.as_slice())
}

/// Whether a character counts as trimmable whitespace here.
pub open spec fn is_ws(c: char) -> bool {
    c == ' ' || c == '\t' || c == '\n' || c == '\r'
}

/// The text with every leading byte-order-mark character removed.
pub open spec fn strip_bom(s: Seq<char>) -> Seq<char>
    decreases s.len(),
{
    if s.len() > 0 && s[0] == '\u{feff}' {
        strip_bom(s.subrange(1, s.len() as int))
    } else {
        s
    }
}

/// The text with Windows and bare carriage returns turned into plain
/// newlines.
pub open spec fn newlines_fixed(s: Seq<char>) -> Seq<char>
    decreases s.len(),
{
    if s.len() == 0 {
        s
    } else if s[0] == '\r' && s.len() >= 2 && s[1] == '\n' {
        seq!['\n'] + newlines_fixed(s.subrange(2, s.len() as int))
    } else if s[0] == '\r' {
        seq!['\n'] + newlines_fixed(s.subrange(1, s.len() as int))
    } else {
        seq![s[0]] + newlines_fixed(s.subrange(1, s.len() as int))
    }
}

/// The text with leading whitespace removed.
pub open spec fn trim_front(s: Seq<char>) -> Seq<char>
    decreases s.len(),
{
    if s.len() > 0 && is_ws(s[0]) {
        trim_front(s.subrange(1, s.len() as int))
    } else {
        s
    }
}

/// The text with trailing whitespace removed.
pub open spec fn trim_back(s: Seq<char>) -> Seq<char>
    decreases s.len(),
{
    if s.len() > 0 && is_ws(s[s.len() - 1]) {
        trim_back(s.subrange(0, s.len() - 1))
    } else {
        s
    }
}

/// Trimming the front keeps the suffix after the leading whitespace.
proof fn lemma_trim_front_at(s: Seq<char>, b: int)
    requires
        0 <= b <= s.len(),
        forall|j: int| 0 <= j < b ==> is_ws(#[trigger] s[j]),
        b < s.len() ==> !is_ws(s[b]),
    ensures
        trim_front(s) == s.subrange(b, s.len() as int),
    decreases b,
{
    if b == 0 {
        assert(s.subrange(0, s.len() as int) =~= s);
    } else {
        let tail = s.subrange(1, s.len() as int);
        lemma_trim_front_at(tail, b - 1);
        assert(tail.subrange(b - 1, tail.len() as int) =~= s.subrange(b, s.len() as int));
    }
}

/// Trimming the back keeps the prefix before the trailing whitespace.
proof fn lemma_trim_back_at(s: Seq<char>, e: int)
    requires
        0 <= e <= s.len(),
        forall|j: int| e <= j < s.len() ==> is_ws(#[trigger] s[j]),
        e > 0 ==> !is_ws(s[e - 1]),
    ensures
        trim_back(s) == s.subrange(0, e),
    decreases s.len() - e,
{
    if e == s.len() {
        if s.len() > 0 && is_ws(s[s.len() - 1]) {
            lemma_trim_back_at(s.subrange(0, s.len() - 1), e - 1);
        } else {
            assert(s.subrange(0, s.len() as int) =~= s);
        }
    } else {
        let head = s.subrange(0, s.len() - 1);
        lemma_trim_back_at(head, e);
        assert(head.subrange(0, e) =~= s.subrange(0, e));
    }
}

/// What the chart-text cleanup leaves: the byte-order mark stripped, every
/// carriage return turned into a newline, and surrounding whitespace
/// trimmed.
pub open spec fn cleaned_text(s: Seq<char>) -> Seq<char> {
    trim_back(trim_front(newlines_fixed(strip_bom(s))))
}

/// Cleans decoded chart text before parsing: strips a leading byte-order
/// mark, normalizes Windows and bare carriage returns to plain newlines,
/// and trims surrounding whitespace.
pub fn clean_json_like(s: &str) -> (r: String)
    ensures
        r@ == cleaned_text(s@),
{
    let n = s.unicode_len();
    proof {
        assert(s@.subrange(0, n as int) =~= s@);
    }
    // skip the leading byte-order-mark characters
    let mut a: usize = 0;
    while a < n && s.get_char(a) == '\u{feff}'
        invariant
            a <= n,
            n == s@.len(),
            strip_bom(s@) == strip_bom(s@.subrange(a as int, n as int)),
        decreases n - a,
    {
        proof {
            let rem = s@.subrange(a as int, n as int);
            assert(rem[0] == s@[a as int]);
            assert(rem.subrange(1, rem.len() as int) =~= s@.subrange(a as int + 1, n as int));
        }
        a = a + 1;
    }
    proof {
        let rem = s@.subrange(a as int, n as int);
        if a < n {
            assert(rem[0] == s@[a as int]);
        }
        assert(strip_bom(s@) == s@.subrange(a as int, n as int));
    }
    // rewrite the newlines
    let mut t = String::new();
    let mut i: usize = a;
    while i < n
        invariant
            a <= i <= n,
            n == s@.len(),
            newlines_fixed(s@.subrange(a as int, n as int)) == t@ + newlines_fixed(
                s@.subrange(i as int, n as int),
            ),
        decreases n - i,
    {
        let ghost rem = s@.subrange(i as int, n as int);
        proof {
            assert(rem[0] == s@[i as int]);
            if i + 1 < n {
                assert(rem[1] == s@[i as int + 1]);
            }
            assert(rem.subrange(1, rem.len() as int) =~= s@.subrange(i as int + 1, n as int));
            if rem.len() >= 2 {
                assert(rem.subrange(2, rem.len() as int) =~= s@.subrange(
                    i as int + 2,
                    n as int,
                ));
            }
            reveal_strlit("\n");
        }
        let c = s.get_char(i);
        if c == '\r' {
            if i + 1 < n && s.get_char(i + 1) == '\n' {
                t.append("\n");
                i = i + 2;
            } else {
                t.append("\n");
                i = i + 1;
            }
        } else {
            let piece = s.substring_char(i, i + 1);
            t.append(piece);
            proof {
                assert(piece@ =~= seq![s@[i as int]]);
            }
            i = i + 1;
        }
    }
    proof {
        assert(s@.subrange(n as int, n as int) =~= Seq::<char>::empty());
        assert(newlines_fixed(Seq::<char>::empty()) =~= Seq::<char>::empty());
        assert(t@ =~= t@ + Seq::<char>::empty());
        assert(t@ == newlines_fixed(strip_bom(s@)));
    }
    // trim surrounding whitespace
    let ts = t.as_str();
    let m = ts.unicode_len();
    let mut b: usize = 0;
    while b < m && is_ws_exec(ts.get_char(b))
        invariant
            b <= m,
            m == ts@.len(),
            ts@ == t@,
            forall|j: int| 0 <= j < b ==> is_ws(#[trigger] ts@[j]),
        decreases m - b,
    {
        b = b + 1;
    }
    let mut e: usize = m;
    while e > b && is_ws_exec(ts.get_char(e - 1))
        invariant
            b <= e <= m,
            m == ts@.len(),
            ts@ == t@,
            b < m ==> !is_ws(ts@[b as int]),
            forall|j: int| 0 <= j < b ==> is_ws(#[trigger] ts@[j]),
            forall|j: int| e <= j < m ==> is_ws(#[trigger] ts@[j]),
        decreases e,
    {
        e = e - 1;
    }
    let out = ts.substring_char(b, e);
    proof {
        lemma_trim_front_at(t@, b as int);
        let mid = t@.subrange(b as int, m as int);
        assert forall|j: int| (e - b) <= j < mid.len() implies is_ws(#[trigger] mid[j]) by {
            assert(mid[j] == t@[j + b]);
        }
        if e > b {
            assert(mid[e - b - 1] == t@[e - 1]);
            assert(!is_ws(mid[e - b - 1]));
        }
        lemma_trim_back_at(mid, e - b);
        assert(mid.subrange(0, e - b) =~= t@.subrange(b as int, e as int));
    }
    out.to_owned()
}

/// Executable form of the whitespace test.
fn is_ws_exec(c: char) -> (r: bool)
    ensures
        r == is_ws(c),
{
    c == ' ' || c == '\t' || c == '\n' || c == '\r'
}

} // verus!
