//! The game's text: Japanese and English pairs of UTF-16 strings that the
//! executable points to, and the CSV table of translations made from them.
use vstd::prelude::*;

use crate::bbtools::xbe::{spec_pointer_offset, spec_u32_table, SectionView, XBE};
use crate::bytes::{le16, ByteReader, IoError};
use crate::decimal::{dec, push_decimal, string_push, string_push_str, zero_pad};

verus! {

/// UTF-16 decoded with replacement: a unit outside the surrogates is its
/// own scalar value, a high surrogate followed by a low one is the value
/// the pair encodes, and any other surrogate becomes U+FFFD on its own.
pub open spec fn lossy_utf16(units: Seq<u16>) -> Seq<char>
    decreases units.len(),
{
    if units.len() == 0 {
        Seq::empty()
    } else {
        let u = units[0];
        if u < 0xD800 || u > 0xDFFF {
            seq![u as char] + lossy_utf16(units.drop_first())
        } else if u <= 0xDBFF && units.len() >= 2 && 0xDC00 <= units[1] <= 0xDFFF {
            seq![(0x10000 + (u - 0xD800) * 0x400 + (units[1] - 0xDC00)) as char]
                + lossy_utf16(units.subrange(2, units.len() as int))
        } else {
            seq!['\u{FFFD}'] + lossy_utf16(units.drop_first())
        }
    }
}

/// Calls `String::from_utf16_lossy` of std, which decodes UTF-16 (as
/// `char::decode_utf16` documents it) and puts U+FFFD for each unpaired
/// surrogate: the result is `lossy_utf16` of the units.
#[verifier::external_body]
fn utf16_lossy(units: &[u16]) -> (r: String)
    ensures
        r@ == lossy_utf16(units@),
{
    String::from_utf16_lossy(units)
}

/// The UTF-16 units from `pos` of `d` up to a zero unit, or `None` when the
/// data ends first.
pub open spec fn utf16_units(d: Seq<u8>, pos: int) -> Option<Seq<u16>>
    decreases d.len() - pos,
{
    if pos < 0 || pos + 2 > d.len() {
        None
    } else if le16(d, pos) == 0 {
        Some(Seq::empty())
    } else {
        match utf16_units(d, pos + 2) {
            Some(rest) => Some(seq![le16(d, pos) as u16] + rest),
            None => None,
        }
    }
}

/// A line of text in both languages; either may be missing.
pub struct Translation {
    pub jp: Option<String>,
    pub en: Option<String>,
}

/// Reads a zero-terminated UTF-16 string at the reader's position, lossily
/// decoded.
pub fn read_utf16_string(reader: &mut ByteReader) -> (r: Result<String, IoError>)
    ensures
        final(reader).data() == old(reader).data(),
        match utf16_units(old(reader).data(), old(reader).pos() as int) {
            Some(u) => r matches Ok(s) && s@ == lossy_utf16(u),
            None => r == Err::<String, IoError>(IoError::UnexpectedEof),
        },
{
    let ghost d = reader.data();
    let ghost start = reader.pos() as int;
    let mut runes: Vec<u16> = Vec::with_capacity(64);
    loop
        invariant_except_break
            utf16_units(d, start) == match utf16_units(d, reader.pos() as int) {
                Some(rest) => Some(runes@ + rest),
                None => None,
            },
        invariant
            reader.data() == d,
            d == old(reader).data(),
            start == old(reader).pos(),
            start <= reader.pos(),
        ensures
            reader.data() == d,
            utf16_units(d, start) == Some(runes@),
        decreases d.len() - reader.pos(),
    {
        let ghost p = reader.pos() as int;
        let rune = match reader.read_u16() {
            Ok(v) => v,
            Err(e) => {
                return Err(e);
            },
        };
        if rune == 0 {
            assert(runes@ + Seq::<u16>::empty() =~= runes@);
            break;
        }
        let ghost before = runes@;
        runes.push(rune);
        proof {
            match utf16_units(d, p + 2) {
                Some(rest) => {
                    assert(before + (seq![rune] + rest) =~= runes@ + rest);
                },
                None => {},
            }
        }
    }
    Ok(utf16_lossy(runes.as_slice()))
}

/// The text that a pointer of the translation table leads to: none for a
/// null pointer, else the UTF-16 string at the pointer.
pub open spec fn text_at(data: Seq<u8>, secs: Seq<SectionView>, ptr: u32) -> Result<
    Option<Seq<char>>,
    IoError,
> {
    if ptr == 0 {
        Ok(None)
    } else {
        match spec_pointer_offset(secs, ptr) {
            Err(e) => Err(e),
            Ok(p) => match utf16_units(data, p as int) {
                None => Err(IoError::UnexpectedEof),
                Some(u) => Ok(Some(lossy_utf16(u))),
            },
        }
    }
}

/// The first `n` translations of the pointer table `t` (Japanese then
/// English pointer for each), or the first error met reading them.
pub open spec fn translations_from(
    data: Seq<u8>,
    secs: Seq<SectionView>,
    t: Seq<u32>,
    n: nat,
) -> Result<Seq<(Option<Seq<char>>, Option<Seq<char>>)>, IoError>
    decreases n,
{
    if n == 0 {
        Ok(Seq::empty())
    } else {
        match translations_from(data, secs, t, (n - 1) as nat) {
            Err(e) => Err(e),
            Ok(prev) => match text_at(data, secs, t[2 * (n - 1)]) {
                Err(e) => Err(e),
                Ok(jp) => match text_at(data, secs, t[2 * (n - 1) + 1]) {
                    Err(e) => Err(e),
                    Ok(en) => Ok(prev.push((jp, en))),
                },
            },
        }
    }
}

pub open spec fn opt_text(s: Option<String>) -> Option<Seq<char>> {
    match s {
        Some(t) => Some(t@),
        None => None,
    }
}

/// The translations read from the table of `count` pointer pairs at
/// `offset` of the named section.
pub open spec fn spec_translations(x: XBE, section: Seq<char>, offset: u32, count: nat) -> Result<
    Seq<(Option<Seq<char>>, Option<Seq<char>>)>,
    IoError,
> {
    match spec_u32_table(x.reader.data(), x.names(), x.sections(), section, offset, 2 * count) {
        Err(e) => Err(e),
        Ok(t) => translations_from(x.reader.data(), x.sections(), t, count),
    }
}

pub proof fn lemma_translations_err_stays(
    data: Seq<u8>,
    secs: Seq<SectionView>,
    t: Seq<u32>,
    k: nat,
    m: nat,
)
    requires
        k <= m,
        translations_from(data, secs, t, k) is Err,
    ensures
        translations_from(data, secs, t, m) == translations_from(data, secs, t, k),
    decreases m,
{
    if k < m {
        lemma_translations_err_stays(data, secs, t, k, (m - 1) as nat);
    }
}

/// Reads the table of `count` pointer pairs at `offset` of the named section,
/// and the Japanese and English strings they point to.
pub fn import_translations(xbe: &mut XBE, section: &str, offset: u32, count: usize) -> (r: Result<
    Vec<Translation>,
    IoError,
>)
    requires
        2 * count <= usize::MAX,
    ensures
        final(xbe).same_image(old(xbe)),
        match (r, spec_translations(*old(xbe), section@, offset, count as nat)) {
            (Ok(v), Ok(w)) => v@.len() == w.len() && forall|i: int|
                0 <= i < w.len() ==> opt_text((#[trigger] v@[i]).jp) == w[i].0 && opt_text(v@[i].en)
                    == w[i].1,
            (Err(e), Err(f)) => e == f,
            _ => false,
        },
{
    let ghost x0 = *xbe;
    let string_offsets = match xbe.read_u32_table(section, offset, count * 2) {
        Ok(t) => t,
        Err(e) => {
            return Err(e);
        },
    };
    let ghost t = string_offsets@;
    let mut translations: Vec<Translation> = Vec::with_capacity(count);
    let mut i: usize = 0;
    while i < count
        invariant
            i <= count,
            2 * count <= usize::MAX,
            string_offsets@.len() == 2 * count,
            xbe.same_image(&x0),
            x0 == *old(xbe),
            spec_u32_table(x0.reader.data(), x0.names(), x0.sections(), section@, offset, 2 * count as nat) == Ok::<Seq<u32>, IoError>(t),
            t == string_offsets@,
            translations_from(x0.reader.data(), x0.sections(), t, i as nat) matches Ok(w) && translations@.len()
                == w.len() && forall|j: int|
                0 <= j < w.len() ==> opt_text((#[trigger] translations@[j]).jp) == w[j].0
                    && opt_text(translations@[j].en) == w[j].1,
        decreases count - i,
    {
        let jp_pointer: u32 = string_offsets[i * 2];
        let en_pointer: u32 = string_offsets[i * 2 + 1];
        let jp = match read_text(xbe, jp_pointer) {
            Ok(s) => s,
            Err(e) => {
                proof {
                    lemma_translations_err_stays(x0.reader.data(), x0.sections(), t, (i + 1) as nat, count as nat);
                }
                return Err(e);
            },
        };
        let en = match read_text(xbe, en_pointer) {
            Ok(s) => s,
            Err(e) => {
                proof {
                    lemma_translations_err_stays(x0.reader.data(), x0.sections(), t, (i + 1) as nat, count as nat);
                }
                return Err(e);
            },
        };
        translations.push(Translation { jp, en });
        i = i + 1;
    }
    Ok(translations)
}

/// Reads the text a pointer of the translation table leads to (see `text_at`).
fn read_text(xbe: &mut XBE, pointer: u32) -> (r: Result<Option<String>, IoError>)
    ensures
        final(xbe).same_image(old(xbe)),
        match (r, text_at(old(xbe).reader.data(), old(xbe).sections(), pointer)) {
            (Ok(v), Ok(w)) => opt_text(v) == w,
            (Err(e), Err(f)) => e == f,
            _ => false,
        },
{
    if pointer == 0 {
        return Ok(None);
    }
    match xbe.seek_pointer_offset(pointer) {
        Err(e) => Err(e),
        Ok(_) => match read_utf16_string(&mut xbe.reader) {
            Ok(s) => Ok(Some(s)),
            Err(e) => Err(e),
        },
    }
}

/// How one character is written inside a quoted CSV field: quotes doubled,
/// and vertical tab, tab and bell as `\v`, `\t` and `\a`.
pub open spec fn escaped(c: char) -> Seq<char> {
    if c == '"' {
        seq!['"', '"']
    } else if c == '\x0B' {
        seq!['\\', 'v']
    } else if c == '\x09' {
        seq!['\\', 't']
    } else if c == '\x07' {
        seq!['\\', 'a']
    } else {
        seq![c]
    }
}

/// `s` with each character escaped.
pub open spec fn sanitized(s: Seq<char>) -> Seq<char>
    decreases s.len(),
{
    if s.len() == 0 {
        Seq::empty()
    } else {
        sanitized(s.drop_last()) + escaped(s.last())
    }
}

/// An escaped text holds no tab, vertical tab or bell.
pub proof fn lemma_sanitized_no_controls(s: Seq<char>)
    ensures
        forall|i: int|
            0 <= i < sanitized(s).len() ==> #[trigger] sanitized(s)[i] != '\x09' && sanitized(s)[i]
                != '\x0B' && sanitized(s)[i] != '\x07',
    decreases s.len(),
{
    if s.len() > 0 {
        lemma_sanitized_no_controls(s.drop_last());
        let p = sanitized(s.drop_last());
        let e = escaped(s.last());
        assert forall|i: int| 0 <= i < sanitized(s).len() implies #[trigger] sanitized(s)[i] != '\x09'
            && sanitized(s)[i] != '\x0B' && sanitized(s)[i] != '\x07' by {
            if i >= p.len() {
                assert(sanitized(s)[i] == e[i - p.len()]);
            } else {
                assert(sanitized(s)[i] == p[i]);
            }
        }
    }
}

/// A text with no quote, tab, vertical tab or bell is left as it is.
pub proof fn lemma_sanitized_plain(s: Seq<char>)
    requires
        forall|i: int|
            0 <= i < s.len() ==> #[trigger] s[i] != '"' && s[i] != '\x09' && s[i] != '\x0B' && s[i]
                != '\x07',
    ensures
        sanitized(s) == s,
    decreases s.len(),
{
    if s.len() > 0 {
        lemma_sanitized_plain(s.drop_last());
        assert(s.drop_last().push(s.last()) =~= s);
        assert(sanitized(s) =~= s.drop_last() + seq![s.last()]);
    }
}

/// Escapes a string for a quoted CSV field (see `escaped`).
pub fn sanitize_string(input: &str) -> (r: String)
    ensures
        r@ == sanitized(input@),
{
    let mut out = String::new();
    let n: usize = input.unicode_len();
    let mut i: usize = 0;
    while i < n
        invariant
            i <= n,
            n == input@.len(),
            out@ == sanitized(input@.subrange(0, i as int)),
        decreases n - i,
    {
        let c: char = input.get_char(i);
        let ghost before = out@;
        if c == '"' {
            string_push(&mut out, '"');
            string_push(&mut out, '"');
        } else if c == '\x0B' {
            string_push(&mut out, '\\');
            string_push(&mut out, 'v');
        } else if c == '\x09' {
            string_push(&mut out, '\\');
            string_push(&mut out, 't');
        } else if c == '\x07' {
            string_push(&mut out, '\\');
            string_push(&mut out, 'a');
        } else {
            string_push(&mut out, c);
        }
        assert(out@ =~= before + escaped(c));
        assert(input@.subrange(0, i + 1).drop_last() =~= input@.subrange(0, i as int));
        i = i + 1;
    }
    assert(input@.subrange(0, n as int) =~= input@);
    out
}

/// The CSV line of translation `i`: the key (`prefix` and `i` on four
/// digits) and both texts, each standing in for the other when missing.
pub open spec fn csv_line(prefix: Seq<char>, i: nat, jp: Seq<char>, en: Seq<char>) -> Seq<char> {
    prefix + zero_pad(dec(i), 4) + seq![',', '"'] + sanitized(jp) + seq!['"', ',', '"'] + sanitized(
        en,
    ) + seq!['"', '\n']
}

/// The CSV lines of the first `n` translations; those with no text at all
/// are left out.
pub open spec fn csv_lines(prefix: Seq<char>, ts: Seq<(Option<Seq<char>>, Option<Seq<char>>)>, n: nat) -> Seq<char>
    decreases n,
{
    if n == 0 {
        Seq::empty()
    } else {
        let prev = csv_lines(prefix, ts, (n - 1) as nat);
        let (jp, en) = ts[n - 1];
        match (jp, en) {
            (None, None) => prev,
            (Some(j), None) => prev + csv_line(prefix, (n - 1) as nat, j, j),
            (None, Some(e)) => prev + csv_line(prefix, (n - 1) as nat, e, e),
            (Some(j), Some(e)) => prev + csv_line(prefix, (n - 1) as nat, j, e),
        }
    }
}

/// The texts of the translations.
pub open spec fn texts(ts: Seq<Translation>) -> Seq<(Option<Seq<char>>, Option<Seq<char>>)> {
    Seq::new(ts.len(), |i: int| (opt_text(ts[i].jp), opt_text(ts[i].en)))
}

/// The CSV table of translations: a header line, then a line per
/// translation that has text (see `csv_lines`).
pub fn write_translations_to_csv(prefix: &str, translations: &[Translation]) -> (r: String)
    requires
        translations@.len() <= u64::MAX,
    ensures
        r@ == "keys,ja,en\n"@ + csv_lines(prefix@, texts(translations@), translations@.len()),
{
    let mut out = String::new();
    string_push_str(&mut out, "keys,ja,en\n");
    let ghost head = out@;
    let mut i: usize = 0;
    while i < translations.len()
        invariant
            i <= translations@.len(),
            translations@.len() <= u64::MAX,
            out@ == head + csv_lines(prefix@, texts(translations@), i as nat),
        decreases translations@.len() - i,
    {
        let t = &translations[i];
        let ghost before = out@;
        let both: Option<(&String, &String)> = match (&t.jp, &t.en) {
            (None, None) => None,
            (Some(j), None) => Some((j, j)),
            (None, Some(e)) => Some((e, e)),
            (Some(j), Some(e)) => Some((j, e)),
        };
        match both {
            None => {},
            Some((jp_str, en_str)) => {
                let jp_sanitized = sanitize_string(jp_str.as_str());
                let en_sanitized = sanitize_string(en_str.as_str());
                string_push_str(&mut out, prefix);
                push_decimal(&mut out, i as u64, 4);
                string_push(&mut out, ',');
                string_push(&mut out, '"');
                string_push_str(&mut out, jp_sanitized.as_str());
                string_push(&mut out, '"');
                string_push(&mut out, ',');
                string_push(&mut out, '"');
                string_push_str(&mut out, en_sanitized.as_str());
                string_push(&mut out, '"');
                string_push(&mut out, '\n');
                assert(out@ =~= before + csv_line(prefix@, i as nat, jp_str@, en_str@));
            },
        }
        i = i + 1;
    }
    out
}

} // verus!
