//! CEA-608 character decoding: parity stripping, control codes, and the
//! special and extended Western European character sets.
use vstd::prelude::*;
use crate::cea708::CaptionData;
use crate::text::{string_from_chars, trim, trim_chars};

verus! {

/// The special set, selected by `0x11 0x30..=0x3F`.
pub open spec fn special_char(c2: u8) -> char {
    match c2 {
        0x30 => '®',
        0x31 => '°',
        0x32 => '½',
        0x33 => '¿',
        0x34 => '™',
        0x35 => '¢',
        0x36 => '£',
        0x37 => '♪',
        0x38 => 'à',
        0x39 => ' ',
        0x3A => 'è',
        0x3B => 'â',
        0x3C => 'ê',
        0x3D => 'î',
        0x3E => 'ô',
        0x3F => 'û',
        _ => ' ',
    }
}

/// The extended Western European sets, selected by `0x12 0x20..=0x3F` and
/// `0x13 0x20..=0x3F`.
pub open spec fn extended_char(c1: u8, c2: u8) -> char {
    match (c1, c2) {
        (0x12, 0x20) => 'Á',
        (0x12, 0x21) => 'É',
        (0x12, 0x22) => 'Ó',
        (0x12, 0x23) => 'Ú',
        (0x12, 0x24) => 'Ü',
        (0x12, 0x25) => 'ü',
        (0x12, 0x26) => '´',
        (0x12, 0x27) => '¡',
        (0x12, 0x28) => '*',
        (0x12, 0x29) => '\'',
        (0x12, 0x2A) => '—',
        (0x12, 0x2B) => '©',
        (0x12, 0x2C) => '℠',
        (0x12, 0x2D) => '•',
        (0x12, 0x2E) => '"',
        (0x12, 0x2F) => '"',
        (0x12, 0x30) => 'À',
        (0x12, 0x31) => 'Â',
        (0x12, 0x32) => 'Ç',
        (0x12, 0x33) => 'È',
        (0x12, 0x34) => 'Ê',
        (0x12, 0x35) => 'Ë',
        (0x12, 0x36) => 'ë',
        (0x12, 0x37) => 'Î',
        (0x12, 0x38) => 'Ï',
        (0x12, 0x39) => 'ï',
        (0x12, 0x3A) => 'Ô',
        (0x12, 0x3B) => 'Ù',
        (0x12, 0x3C) => 'ù',
        (0x12, 0x3D) => 'Û',
        (0x12, 0x3E) => '«',
        (0x12, 0x3F) => '»',
        (0x13, 0x20) => 'Ã',
        (0x13, 0x21) => 'ã',
        (0x13, 0x22) => 'Í',
        (0x13, 0x23) => 'Ì',
        (0x13, 0x24) => 'ì',
        (0x13, 0x25) => 'Ò',
        (0x13, 0x26) => 'ò',
        (0x13, 0x27) => 'Õ',
        (0x13, 0x28) => 'õ',
        (0x13, 0x29) => '{',
        (0x13, 0x2A) => '}',
        (0x13, 0x2B) => '\\',
        (0x13, 0x2C) => '^',
        (0x13, 0x2D) => '_',
        (0x13, 0x2E) => '|',
        (0x13, 0x2F) => '~',
        (0x13, 0x30) => 'Ä',
        (0x13, 0x31) => 'ä',
        (0x13, 0x32) => 'Ö',
        (0x13, 0x33) => 'ö',
        (0x13, 0x34) => 'ß',
        (0x13, 0x35) => '¥',
        (0x13, 0x36) => '¤',
        (0x13, 0x37) => '¦',
        (0x13, 0x38) => 'Å',
        (0x13, 0x39) => 'å',
        (0x13, 0x3A) => 'Ø',
        (0x13, 0x3B) => 'ø',
        (0x13, 0x3C) => '┌',
        (0x13, 0x3D) => '┐',
        (0x13, 0x3E) => '└',
        (0x13, 0x3F) => '┘',
        _ => ' ',
    }
}

pub open spec fn in_range(b: u8, lo: u8, hi: u8) -> bool {
    lo <= b && b <= hi
}

pub open spec fn is_special_pair(c1: u8, c2: u8) -> bool {
    c1 == 0x11 && in_range(c2, 0x30, 0x3F)
}

pub open spec fn is_extended_pair(c1: u8, c2: u8) -> bool {
    (c1 == 0x12 || c1 == 0x13) && in_range(c2, 0x20, 0x3F)
}

/// The characters of a parity-stripped pair `(c1, c2)`: nothing for null
/// padding and for control codes (`c1` in `0x10..=0x1F`), one character
/// for a special or extended selector, else the printable bytes.
pub open spec fn stripped_pair_chars(c1: u8, c2: u8) -> Seq<char> {
    if c1 == 0 && c2 == 0 {
        seq![]
    } else if is_special_pair(c1, c2) {
        seq![special_char(c2)]
    } else if is_extended_pair(c1, c2) {
        seq![extended_char(c1, c2)]
    } else if in_range(c1, 0x10, 0x1F) {
        seq![]
    } else {
        let first: Seq<char> = if in_range(c1, 0x20, 0x7F) {
            seq![c1 as char]
        } else {
            seq![]
        };
        if in_range(c2, 0x20, 0x7F) {
            first.push(c2 as char)
        } else {
            first
        }
    }
}

/// A trimmed per-pair result that is dropped as timing noise.
pub open spec fn is_noise(t: Seq<char>) -> bool {
    t.len() == 0 || t == seq!['@'] || t == seq![','] || t == seq!['/'] || t == seq![' ']
}

/// The text of the pair `(b1, b2)` as it arrives, parity bits included.
pub open spec fn pair_text(b1: u8, b2: u8) -> Seq<char> {
    let chars = stripped_pair_chars(b1 & 0x7F, b2 & 0x7F);
    if is_noise(trim(chars)) {
        seq![]
    } else {
        chars
    }
}

/// The CEA-608 text of a sequence of triplets, concatenated in order.
pub open spec fn triplets_text(ts: Seq<(bool, u8, u8, u8)>) -> Seq<char>
    decreases ts.len(),
{
    if ts.len() == 0 {
        seq![]
    } else {
        let t = ts.last();
        if t.0 && t.1 <= 1 {
            triplets_text(ts.drop_last()) + pair_text(t.2, t.3)
        } else {
            triplets_text(ts.drop_last())
        }
    }
}

/// The caption of one message's triplets: the text of its valid
/// field-1/field-2 pairs in order, trimmed, where non-empty.
pub open spec fn triplets_caption(ts: Seq<(bool, u8, u8, u8)>) -> Seq<Seq<char>> {
    let t = trim(triplets_text(ts));
    if t.len() == 0 {
        seq![]
    } else {
        seq![t]
    }
}

/// Decoding depends on the two bytes only through their low seven bits.
pub proof fn lemma_decode_ignores_parity(b1: u8, b2: u8, d1: u8, d2: u8)
    requires
        b1 & 0x7F == d1 & 0x7F,
        b2 & 0x7F == d2 & 0x7F,
    ensures
        pair_text(b1, b2) == pair_text(d1, d2),
{
}

fn is_noise_chars(t: &Vec<char>) -> (r: bool)
    ensures
        r == is_noise(t@),
{
    if t.len() == 0 {
        return true;
    }
    if t.len() != 1 {
        assert(t@.len() != 1);
        return false;
    }
    let c = t[0];
    let r = c == '@' || c == ',' || c == '/' || c == ' ';
    proof {
        if r {
            assert(t@ == seq![c]);
        } else {
            assert(t@ != seq!['@'] && t@ != seq![','] && t@ != seq!['/'] && t@ != seq![' ']) by {
                if t@ == seq!['@'] { assert(t@[0] == '@'); }
                if t@ == seq![','] { assert(t@[0] == ','); }
                if t@ == seq!['/'] { assert(t@[0] == '/'); }
                if t@ == seq![' '] { assert(t@[0] == ' '); }
            }
        }
    }
    r
}

/// The characters of one CEA-608 pair, noise filter applied.
pub fn decode_pair(b1: u8, b2: u8) -> (r: Vec<char>)
    ensures
        r@ == pair_text(b1, b2),
{
    let decoder = Cea608Decoder::new();
    let chars = decoder.pair_chars(b1 & 0x7F, b2 & 0x7F);
    let trimmed = trim_chars(&chars);
    if is_noise_chars(&trimmed) {
        Vec::new()
    } else {
        chars
    }
}

pub struct Cea608Decoder {}

impl Cea608Decoder {
    pub fn new() -> (r: Self) {
        Cea608Decoder {}
    }

    /// The caption of one message's triplets, if it carries text.
    pub fn caption_text(&self, caption_data: &[CaptionData]) -> (r: Option<String>)
        ensures
            triplets_caption(caption_data@.map_values(|c: CaptionData| c@)).len() == 0
                <==> r.is_none(),
            r matches Some(s) ==> triplets_caption(caption_data@.map_values(|c: CaptionData| c@))
                == seq![s@],
    {
        let ghost ts = caption_data@.map_values(|c: CaptionData| c@);
        let mut text: Vec<char> = Vec::new();
        let mut k: usize = 0;
        while k < caption_data.len()
            invariant
                k <= caption_data.len(),
                ts == caption_data@.map_values(|c: CaptionData| c@),
                text@ == triplets_text(ts.subrange(0, k as int)),
            decreases caption_data.len() - k,
        {
            let t = caption_data[k];
            assert(ts.subrange(0, k + 1).drop_last() =~= ts.subrange(0, k as int));
            assert(ts.subrange(0, k + 1).last() == t@);
            if t.cc_valid && t.cc_type <= 1 {
                let mut chars = decode_pair(t.cc_data[0], t.cc_data[1]);
                text.append(&mut chars);
            }
            k = k + 1;
        }
        assert(ts.subrange(0, caption_data@.len() as int) =~= ts);
        let trimmed = trim_chars(&text);
        if trimmed.len() == 0 {
            None
        } else {
            Some(string_from_chars(&trimmed))
        }
    }

    /// The captions of one message's triplets: the in-order text of its
    /// valid field-1/field-2 pairs, trimmed, as one string where non-empty.
    pub fn decode_caption_data(&self, caption_data: &[CaptionData]) -> (r: Vec<String>)
        ensures
            r@.map_values(|s: String| s@) == triplets_caption(
                caption_data@.map_values(|c: CaptionData| c@),
            ),
    {
        let mut captions: Vec<String> = Vec::new();
        if let Some(text) = self.caption_text(caption_data) {
            captions.push(text);
        }
        assert(captions@.map_values(|s: String| s@) =~= triplets_caption(
            caption_data@.map_values(|c: CaptionData| c@),
        ));
        captions
    }

    /// The text of one pair, or `None` where it decodes to nothing.
    pub fn decode_cea608_pair(&self, data1: u8, data2: u8) -> (r: Option<String>)
        ensures
            pair_text(data1, data2).len() == 0 <==> r.is_none(),
            r matches Some(s) ==> s@ == pair_text(data1, data2),
    {
        let chars = decode_pair(data1, data2);
        if chars.len() == 0 {
            None
        } else {
            Some(string_from_chars(&chars))
        }
    }

    /// The characters of a parity-stripped pair, before the noise filter.
    pub fn pair_chars(&self, c1: u8, c2: u8) -> (r: Vec<char>)
        ensures
            r@ == stripped_pair_chars(c1, c2),
    {
        let mut result: Vec<char> = Vec::new();
        if c1 == 0 && c2 == 0 {
            return result;
        }
        if self.is_special_character(c1, c2) {
            if let Some(ch) = self.decode_special_character(c2) {
                result.push(ch);
            }
            assert(result@ =~= stripped_pair_chars(c1, c2));
            return result;
        }
        if self.is_extended_character(c1, c2) {
            if let Some(ch) = self.decode_extended_character(c1, c2) {
                result.push(ch);
            }
            assert(result@ =~= stripped_pair_chars(c1, c2));
            return result;
        }
        if 0x10 <= c1 && c1 <= 0x1F {
            return result;
        }
        if self.is_printable_basic(c1) {
            result.push(c1 as char);
        }
        if self.is_printable_basic(c2) {
            result.push(c2 as char);
        }
        assert(result@ =~= stripped_pair_chars(c1, c2));
        result
    }

    pub fn is_printable_basic(&self, byte: u8) -> (r: bool)
        ensures
            r == in_range(byte, 0x20, 0x7F),
    {
        byte >= 0x20 && byte <= 0x7F
    }

    pub fn is_special_character(&self, data1: u8, data2: u8) -> (r: bool)
        ensures
            r == is_special_pair(data1, data2),
    {
        data1 == 0x11 && data2 >= 0x30 && data2 <= 0x3F
    }

    pub fn decode_special_character(&self, data2: u8) -> (r: Option<char>)
        ensures
            r == (if in_range(data2, 0x30, 0x3F) {
                Some(special_char(data2))
            } else {
                None
            }),
    {
        match data2 {
            0x30 => Some('®'),
            0x31 => Some('°'),
            0x32 => Some('½'),
            0x33 => Some('¿'),
            0x34 => Some('™'),
            0x35 => Some('¢'),
            0x36 => Some('£'),
            0x37 => Some('♪'),
            0x38 => Some('à'),
            0x39 => Some(' '),
            0x3A => Some('è'),
            0x3B => Some('â'),
            0x3C => Some('ê'),
            0x3D => Some('î'),
            0x3E => Some('ô'),
            0x3F => Some('û'),
            _ => None,
        }
    }

    pub fn is_extended_character(&self, data1: u8, data2: u8) -> (r: bool)
        ensures
            r == is_extended_pair(data1, data2),
    {
        (data1 == 0x12 || data1 == 0x13) && data2 >= 0x20 && data2 <= 0x3F
    }

    pub fn decode_extended_character(&self, data1: u8, data2: u8) -> (r: Option<char>)
        ensures
            r == (if is_extended_pair(data1, data2) {
                Some(extended_char(data1, data2))
            } else {
                None
            }),
    {
        match (data1, data2) {
            (0x12, 0x20) => Some('Á'),
            (0x12, 0x21) => Some('É'),
            (0x12, 0x22) => Some('Ó'),
            (0x12, 0x23) => Some('Ú'),
            (0x12, 0x24) => Some('Ü'),
            (0x12, 0x25) => Some('ü'),
            (0x12, 0x26) => Some('´'),
            (0x12, 0x27) => Some('¡'),
            (0x12, 0x28) => Some('*'),
            (0x12, 0x29) => Some('\''),
            (0x12, 0x2A) => Some('—'),
            (0x12, 0x2B) => Some('©'),
            (0x12, 0x2C) => Some('℠'),
            (0x12, 0x2D) => Some('•'),
            (0x12, 0x2E) => Some('"'),
            (0x12, 0x2F) => Some('"'),
            (0x12, 0x30) => Some('À'),
            (0x12, 0x31) => Some('Â'),
            (0x12, 0x32) => Some('Ç'),
            (0x12, 0x33) => Some('È'),
            (0x12, 0x34) => Some('Ê'),
            (0x12, 0x35) => Some('Ë'),
            (0x12, 0x36) => Some('ë'),
            (0x12, 0x37) => Some('Î'),
            (0x12, 0x38) => Some('Ï'),
            (0x12, 0x39) => Some('ï'),
            (0x12, 0x3A) => Some('Ô'),
            (0x12, 0x3B) => Some('Ù'),
            (0x12, 0x3C) => Some('ù'),
            (0x12, 0x3D) => Some('Û'),
            (0x12, 0x3E) => Some('«'),
            (0x12, 0x3F) => Some('»'),
            (0x13, 0x20) => Some('Ã'),
            (0x13, 0x21) => Some('ã'),
            (0x13, 0x22) => Some('Í'),
            (0x13, 0x23) => Some('Ì'),
            (0x13, 0x24) => Some('ì'),
            (0x13, 0x25) => Some('Ò'),
            (0x13, 0x26) => Some('ò'),
            (0x13, 0x27) => Some('Õ'),
            (0x13, 0x28) => Some('õ'),
            (0x13, 0x29) => Some('{'),
            (0x13, 0x2A) => Some('}'),
            (0x13, 0x2B) => Some('\\'),
            (0x13, 0x2C) => Some('^'),
            (0x13, 0x2D) => Some('_'),
            (0x13, 0x2E) => Some('|'),
            (0x13, 0x2F) => Some('~'),
            (0x13, 0x30) => Some('Ä'),
            (0x13, 0x31) => Some('ä'),
            (0x13, 0x32) => Some('Ö'),
            (0x13, 0x33) => Some('ö'),
            (0x13, 0x34) => Some('ß'),
            (0x13, 0x35) => Some('¥'),
            (0x13, 0x36) => Some('¤'),
            (0x13, 0x37) => Some('¦'),
            (0x13, 0x38) => Some('Å'),
            (0x13, 0x39) => Some('å'),
            (0x13, 0x3A) => Some('Ø'),
            (0x13, 0x3B) => Some('ø'),
            (0x13, 0x3C) => Some('┌'),
            (0x13, 0x3D) => Some('┐'),
            (0x13, 0x3E) => Some('└'),
            (0x13, 0x3F) => Some('┘'),
            _ => None,
        }
    }
}

} // verus!
