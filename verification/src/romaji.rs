//! Transliteration of romanised Japanese into hiragana.
//!
//! The input is read from left to right in units of one to three letters:
//! a vowel, a consonant with its vowel, a doubled consonant, or a consonant,
//! a glide and a vowel. Letters are matched without regard to ASCII case.
//! A letter that opens no unit is passed over without output.

use vstd::prelude::*;
use crate::text::{ascii_lower, chars_of, to_ascii_lower};

verus! {

/// The prolonged sound mark.
pub const LONG_VOWEL_MARK: char = 'ー';

/// Whether `c` is one of the five vowels.
pub open spec fn is_vowel(c: char) -> bool {
    c == 'a' || c == 'i' || c == 'u' || c == 'e' || c == 'o'
}

/// The kana of a vowel standing alone.
pub open spec fn vowel_kana(v: char) -> char {
    match v {
        'a' => 'あ',
        'i' => 'い',
        'u' => 'う',
        'e' => 'え',
        _ => 'お',
    }
}

/// The kana written for the consonant `c` directly followed by `v`, or the
/// empty sequence where the pair is no syllable.
pub open spec fn syllable(c: char, v: char) -> Seq<char> {
    match c {
        'k' => match v {
            'a' => seq!['か'],
            'i' => seq!['き'],
            'u' => seq!['く'],
            'e' => seq!['け'],
            'o' => seq!['こ'],
            _ => seq![],
        },
        's' => match v {
            'a' => seq!['さ'],
            'i' => seq!['し'],
            'u' => seq!['す'],
            'e' => seq!['せ'],
            'o' => seq!['そ'],
            _ => seq![],
        },
        't' => match v {
            'a' => seq!['た'],
            'i' => seq!['て', 'ぃ'],
            'u' => seq!['と', 'ぅ'],
            'e' => seq!['て'],
            'o' => seq!['と'],
            _ => seq![],
        },
        'n' => match v {
            'a' => seq!['な'],
            'i' => seq!['に'],
            'u' => seq!['ぬ'],
            'e' => seq!['ね'],
            'o' => seq!['の'],
            _ => seq![],
        },
        'h' => match v {
            'a' => seq!['は'],
            'i' => seq!['ひ'],
            'u' => seq!['ふ'],
            'e' => seq!['へ'],
            'o' => seq!['ほ'],
            _ => seq![],
        },
        'f' => match v {
            'a' => seq!['ふ', 'ぁ'],
            'i' => seq!['ふ', 'ぃ'],
            'u' => seq!['ふ'],
            'e' => seq!['ふ', 'ぇ'],
            'o' => seq!['ふ', 'ぉ'],
            _ => seq![],
        },
        'm' => match v {
            'a' => seq!['ま'],
            'i' => seq!['み'],
            'u' => seq!['む'],
            'e' => seq!['め'],
            'o' => seq!['も'],
            _ => seq![],
        },
        'y' => match v {
            'a' => seq!['や'],
            'u' => seq!['ゆ'],
            'o' => seq!['よ'],
            _ => seq![],
        },
        'r' => match v {
            'a' => seq!['ら'],
            'i' => seq!['り'],
            'u' => seq!['る'],
            'e' => seq!['れ'],
            'o' => seq!['ろ'],
            _ => seq![],
        },
        'w' => match v {
            'a' => seq!['わ'],
            'i' => seq!['う', 'ぃ'],
            'e' => seq!['う', 'ぇ'],
            'o' => seq!['を'],
            _ => seq![],
        },
        'g' => match v {
            'a' => seq!['が'],
            'i' => seq!['ぎ'],
            'u' => seq!['ぐ'],
            'e' => seq!['げ'],
            'o' => seq!['ご'],
            _ => seq![],
        },
        'z' => match v {
            'a' => seq!['ざ'],
            'i' => seq!['じ'],
            'u' => seq!['ず'],
            'e' => seq!['ぜ'],
            'o' => seq!['ぞ'],
            _ => seq![],
        },
        'j' => match v {
            'a' => seq!['じ', 'ゃ'],
            'i' => seq!['じ'],
            'u' => seq!['じ', 'ゅ'],
            'e' => seq!['じ', 'ぇ'],
            'o' => seq!['じ', 'ょ'],
            _ => seq![],
        },
        'd' => match v {
            'a' => seq!['だ'],
            'i' => seq!['で', 'ぃ'],
            'u' => seq!['ど', 'ぅ'],
            'e' => seq!['で'],
            'o' => seq!['ど'],
            _ => seq![],
        },
        'b' => match v {
            'a' => seq!['ば'],
            'i' => seq!['び'],
            'u' => seq!['ぶ'],
            'e' => seq!['べ'],
            'o' => seq!['ぼ'],
            _ => seq![],
        },
        'v' => match v {
            'a' => seq!['ゔ', 'ぁ'],
            'i' => seq!['ゔ', 'ぃ'],
            'u' => seq!['ゔ'],
            'e' => seq!['ゔ', 'ぇ'],
            'o' => seq!['ゔ', 'ぉ'],
            _ => seq![],
        },
        'p' => match v {
            'a' => seq!['ぱ'],
            'i' => seq!['ぴ'],
            'u' => seq!['ぷ'],
            'e' => seq!['ぺ'],
            'o' => seq!['ぽ'],
            _ => seq![],
        },
        _ => seq![],
    }
}

/// What a consonant followed by itself writes: the small tsu for a doubled
/// consonant, the syllabic n for `nn`, nothing for a letter that does not
/// double.
pub open spec fn doubled(c: char) -> Seq<char> {
    match c {
        'k' | 's' | 't' | 'c' | 'h' | 'f' | 'm' | 'y' | 'r' | 'w' | 'g' | 'z' | 'd' | 'b' | 'v' | 'p' => seq!['っ'],
        'n' => seq!['ん'],
        _ => seq![],
    }
}

/// Whether the consonant `c` followed by `g` opens a unit of three letters.
pub open spec fn is_glide(c: char, g: char) -> bool {
    match c {
        'k' => g == 'y',
        's' => g == 'h' || g == 'y',
        't' => g == 's' || g == 'y',
        'c' => g == 'h',
        'n' => g == 'y',
        'h' => g == 'y',
        'm' => g == 'y',
        'r' => g == 'y',
        'g' => g == 'y',
        'z' => g == 'y',
        'b' => g == 'y',
        'p' => g == 'y',
        _ => false,
    }
}

/// The kana written for the consonant `c`, the glide `g` and the letter `v`,
/// or the empty sequence where the three are no syllable.
pub open spec fn contracted(c: char, g: char, v: char) -> Seq<char> {
    match (c, g) {
        ('k', 'y') => match v {
            'a' => seq!['き', 'ゃ'],
            'u' => seq!['き', 'ゅ'],
            'o' => seq!['き', 'ょ'],
            _ => seq![],
        },
        ('s', 'h') => match v {
            'a' => seq!['し', 'ゃ'],
            'i' => seq!['し'],
            'u' => seq!['し', 'ゅ'],
            'e' => seq!['し', 'ぇ'],
            'o' => seq!['し', 'ょ'],
            _ => seq![],
        },
        ('s', 'y') => match v {
            'a' => seq!['し', 'ゃ'],
            'u' => seq!['し', 'ゅ'],
            'o' => seq!['し', 'ょ'],
            _ => seq![],
        },
        ('t', 's') => match v {
            'a' => seq!['つ', 'ぁ'],
            'i' => seq!['つ', 'ぃ'],
            'u' => seq!['つ'],
            'e' => seq!['つ', 'ぇ'],
            'o' => seq!['つ', 'ぉ'],
            _ => seq![],
        },
        ('t', 'y') => match v {
            'a' => seq!['ち', 'ゃ'],
            'u' => seq!['ち', 'ゅ'],
            'o' => seq!['ち', 'ょ'],
            _ => seq![],
        },
        ('c', 'h') => match v {
            'a' => seq!['ち', 'ゃ'],
            'i' => seq!['ち'],
            'u' => seq!['ち', 'ゅ'],
            'e' => seq!['ち', 'ぇ'],
            'o' => seq!['ち', 'ょ'],
            _ => seq![],
        },
        ('n', 'y') => match v {
            'a' => seq!['に', 'ゃ'],
            'u' => seq!['に', 'ゅ'],
            'o' => seq!['に', 'ょ'],
            _ => seq![],
        },
        ('h', 'y') => match v {
            'a' => seq!['ひ', 'ゃ'],
            'u' => seq!['ひ', 'ゅ'],
            'o' => seq!['ひ', 'ょ'],
            _ => seq![],
        },
        ('m', 'y') => match v {
            'a' => seq!['み', 'ゃ'],
            'u' => seq!['み', 'ゅ'],
            'o' => seq!['み', 'ょ'],
            _ => seq![],
        },
        ('r', 'y') => match v {
            'a' => seq!['り', 'ゃ'],
            'u' => seq!['り', 'ゅ'],
            'o' => seq!['り', 'ょ'],
            _ => seq![],
        },
        ('g', 'y') => match v {
            'a' => seq!['ぎ', 'ゃ'],
            'u' => seq!['ぎ', 'ゅ'],
            'o' => seq!['ぎ', 'ょ'],
            _ => seq![],
        },
        ('z', 'y') => match v {
            'a' => seq!['じ', 'ゃ'],
            'u' => seq!['じ', 'ゅ'],
            'o' => seq!['じ', 'ょ'],
            _ => seq![],
        },
        ('b', 'y') => match v {
            'a' => seq!['び', 'ゃ'],
            'u' => seq!['び', 'ゅ'],
            'o' => seq!['び', 'ょ'],
            _ => seq![],
        },
        ('p', 'y') => match v {
            'a' => seq!['ぴ', 'ゃ'],
            'u' => seq!['ぴ', 'ゅ'],
            'o' => seq!['ぴ', 'ょ'],
            _ => seq![],
        },
        _ => seq![],
    }
}

/// What a consonant writes when neither a syllable, a doubling nor a glide
/// follows it: the syllabic n for `n`, nothing for any other letter.
pub open spec fn alone(c: char) -> Seq<char> {
    if c == 'n' {
        seq!['ん']
    } else {
        seq![]
    }
}

/// The letter at index `i` of `s`, in lower case.
pub open spec fn letter(s: Seq<char>, i: int) -> char {
    ascii_lower(s[i])
}

/// The number of letters in the unit that starts at index `i` of `s`.
pub open spec fn unit_len(s: Seq<char>, i: int) -> int {
    let c = letter(s, i);
    if is_vowel(c) || i + 1 >= s.len() {
        1
    } else {
        let d = letter(s, i + 1);
        if syllable(c, d).len() > 0 {
            2
        } else if is_glide(c, d) {
            if i + 2 >= s.len() {
                2
            } else {
                3
            }
        } else {
            1
        }
    }
}

/// The kana written for the unit that starts at index `i` of `s`.
///
/// With `prolonged` set, a vowel whose left neighbour in `s` is the same
/// lower-case vowel is written as the prolonged sound mark.
pub open spec fn unit_kana(s: Seq<char>, i: int, prolonged: bool) -> Seq<char> {
    let c = letter(s, i);
    if is_vowel(c) {
        if prolonged && i > 0 && s[i - 1] == c {
            seq![LONG_VOWEL_MARK]
        } else {
            seq![vowel_kana(c)]
        }
    } else if i + 1 >= s.len() {
        alone(c)
    } else {
        let d = letter(s, i + 1);
        if syllable(c, d).len() > 0 {
            syllable(c, d)
        } else if d == c {
            doubled(c)
        } else if is_glide(c, d) {
            if i + 2 >= s.len() {
                seq![]
            } else {
                contracted(c, d, letter(s, i + 2))
            }
        } else {
            alone(c)
        }
    }
}

/// The hiragana for `s` from index `i` on.
pub open spec fn hiragana_from(s: Seq<char>, i: int, prolonged: bool) -> Seq<char>
    decreases s.len() - i,
{
    if 0 <= i < s.len() {
        unit_kana(s, i, prolonged) + hiragana_from(s, i + unit_len(s, i), prolonged)
    } else {
        seq![]
    }
}

/// The hiragana for the romanised text `s`.
pub open spec fn hiragana(s: Seq<char>, prolonged: bool) -> Seq<char> {
    hiragana_from(s, 0, prolonged)
}

/// Appends the kana of the syllable `c` + `v` to `out` and says whether there
/// is such a syllable.
fn push_syllable(out: &mut String, c: char, v: char) -> (found: bool)
    ensures
        final(out)@ == old(out)@ + syllable(c, v),
        found == (syllable(c, v).len() > 0),
{
    match c {
        'k' => match v {
            'a' => {
                out.push('か');
                true
            },
            'i' => {
                out.push('き');
                true
            },
            'u' => {
                out.push('く');
                true
            },
            'e' => {
                out.push('け');
                true
            },
            'o' => {
                out.push('こ');
                true
            },
            _ => false,
        },
        's' => match v {
            'a' => {
                out.push('さ');
                true
            },
            'i' => {
                out.push('し');
                true
            },
            'u' => {
                out.push('す');
                true
            },
            'e' => {
                out.push('せ');
                true
            },
            'o' => {
                out.push('そ');
                true
            },
            _ => false,
        },
        't' => match v {
            'a' => {
                out.push('た');
                true
            },
            'i' => {
                out.push('て');
                out.push('ぃ');
                true
            },
            'u' => {
                out.push('と');
                out.push('ぅ');
                true
            },
            'e' => {
                out.push('て');
                true
            },
            'o' => {
                out.push('と');
                true
            },
            _ => false,
        },
        'n' => match v {
            'a' => {
                out.push('な');
                true
            },
            'i' => {
                out.push('に');
                true
            },
            'u' => {
                out.push('ぬ');
                true
            },
            'e' => {
                out.push('ね');
                true
            },
            'o' => {
                out.push('の');
                true
            },
            _ => false,
        },
        'h' => match v {
            'a' => {
                out.push('は');
                true
            },
            'i' => {
                out.push('ひ');
                true
            },
            'u' => {
                out.push('ふ');
                true
            },
            'e' => {
                out.push('へ');
                true
            },
            'o' => {
                out.push('ほ');
                true
            },
            _ => false,
        },
        'f' => match v {
            'a' => {
                out.push('ふ');
                out.push('ぁ');
                true
            },
            'i' => {
                out.push('ふ');
                out.push('ぃ');
                true
            },
            'u' => {
                out.push('ふ');
                true
            },
            'e' => {
                out.push('ふ');
                out.push('ぇ');
                true
            },
            'o' => {
                out.push('ふ');
                out.push('ぉ');
                true
            },
            _ => false,
        },
        'm' => match v {
            'a' => {
                out.push('ま');
                true
            },
            'i' => {
                out.push('み');
                true
            },
            'u' => {
                out.push('む');
                true
            },
            'e' => {
                out.push('め');
                true
            },
            'o' => {
                out.push('も');
                true
            },
            _ => false,
        },
        'y' => match v {
            'a' => {
                out.push('や');
                true
            },
            'u' => {
                out.push('ゆ');
                true
            },
            'o' => {
                out.push('よ');
                true
            },
            _ => false,
        },
        'r' => match v {
            'a' => {
                out.push('ら');
                true
            },
            'i' => {
                out.push('り');
                true
            },
            'u' => {
                out.push('る');
                true
            },
            'e' => {
                out.push('れ');
                true
            },
            'o' => {
                out.push('ろ');
                true
            },
            _ => false,
        },
        'w' => match v {
            'a' => {
                out.push('わ');
                true
            },
            'i' => {
                out.push('う');
                out.push('ぃ');
                true
            },
            'e' => {
                out.push('う');
                out.push('ぇ');
                true
            },
            'o' => {
                out.push('を');
                true
            },
            _ => false,
        },
        'g' => match v {
            'a' => {
                out.push('が');
                true
            },
            'i' => {
                out.push('ぎ');
                true
            },
            'u' => {
                out.push('ぐ');
                true
            },
            'e' => {
                out.push('げ');
                true
            },
            'o' => {
                out.push('ご');
                true
            },
            _ => false,
        },
        'z' => match v {
            'a' => {
                out.push('ざ');
                true
            },
            'i' => {
                out.push('じ');
                true
            },
            'u' => {
                out.push('ず');
                true
            },
            'e' => {
                out.push('ぜ');
                true
            },
            'o' => {
                out.push('ぞ');
                true
            },
            _ => false,
        },
        'j' => match v {
            'a' => {
                out.push('じ');
                out.push('ゃ');
                true
            },
            'i' => {
                out.push('じ');
                true
            },
            'u' => {
                out.push('じ');
                out.push('ゅ');
                true
            },
            'e' => {
                out.push('じ');
                out.push('ぇ');
                true
            },
            'o' => {
                out.push('じ');
                out.push('ょ');
                true
            },
            _ => false,
        },
        'd' => match v {
            'a' => {
                out.push('だ');
                true
            },
            'i' => {
                out.push('で');
                out.push('ぃ');
                true
            },
            'u' => {
                out.push('ど');
                out.push('ぅ');
                true
            },
            'e' => {
                out.push('で');
                true
            },
            'o' => {
                out.push('ど');
                true
            },
            _ => false,
        },
        'b' => match v {
            'a' => {
                out.push('ば');
                true
            },
            'i' => {
                out.push('び');
                true
            },
            'u' => {
                out.push('ぶ');
                true
            },
            'e' => {
                out.push('べ');
                true
            },
            'o' => {
                out.push('ぼ');
                true
            },
            _ => false,
        },
        'v' => match v {
            'a' => {
                out.push('ゔ');
                out.push('ぁ');
                true
            },
            'i' => {
                out.push('ゔ');
                out.push('ぃ');
                true
            },
            'u' => {
                out.push('ゔ');
                true
            },
            'e' => {
                out.push('ゔ');
                out.push('ぇ');
                true
            },
            'o' => {
                out.push('ゔ');
                out.push('ぉ');
                true
            },
            _ => false,
        },
        'p' => match v {
            'a' => {
                out.push('ぱ');
                true
            },
            'i' => {
                out.push('ぴ');
                true
            },
            'u' => {
                out.push('ぷ');
                true
            },
            'e' => {
                out.push('ぺ');
                true
            },
            'o' => {
                out.push('ぽ');
                true
            },
            _ => false,
        },
        _ => false,
    }
}

/// Appends what the doubled consonant `c` writes to `out`.
fn push_doubled(out: &mut String, c: char)
    ensures
        final(out)@ == old(out)@ + doubled(c),
{
    match c {
        'k' | 's' | 't' | 'c' | 'h' | 'f' | 'm' | 'y' | 'r' | 'w' | 'g' | 'z' | 'd' | 'b' | 'v' | 'p' => {
            out.push('っ');
        },
        'n' => {
            out.push('ん');
        },
        _ => {},
    }
}

/// Whether the consonant `c` followed by `g` opens a unit of three letters.
fn glide_follows(c: char, g: char) -> (r: bool)
    ensures
        r == is_glide(c, g),
{
    match c {
        'k' => g == 'y',
        's' => g == 'h' || g == 'y',
        't' => g == 's' || g == 'y',
        'c' => g == 'h',
        'n' => g == 'y',
        'h' => g == 'y',
        'm' => g == 'y',
        'r' => g == 'y',
        'g' => g == 'y',
        'z' => g == 'y',
        'b' => g == 'y',
        'p' => g == 'y',
        _ => false,
    }
}

/// Appends the kana of the syllable `c` + `g` + `v` to `out`.
fn push_contracted(out: &mut String, c: char, g: char, v: char)
    ensures
        final(out)@ == old(out)@ + contracted(c, g, v),
{
    match (c, g) {
        ('k', 'y') => match v {
            'a' => {
                out.push('き');
                out.push('ゃ');
            },
            'u' => {
                out.push('き');
                out.push('ゅ');
            },
            'o' => {
                out.push('き');
                out.push('ょ');
            },
            _ => {},
        },
        ('s', 'h') => match v {
            'a' => {
                out.push('し');
                out.push('ゃ');
            },
            'i' => {
                out.push('し');
            },
            'u' => {
                out.push('し');
                out.push('ゅ');
            },
            'e' => {
                out.push('し');
                out.push('ぇ');
            },
            'o' => {
                out.push('し');
                out.push('ょ');
            },
            _ => {},
        },
        ('s', 'y') => match v {
            'a' => {
                out.push('し');
                out.push('ゃ');
            },
            'u' => {
                out.push('し');
                out.push('ゅ');
            },
            'o' => {
                out.push('し');
                out.push('ょ');
            },
            _ => {},
        },
        ('t', 's') => match v {
            'a' => {
                out.push('つ');
                out.push('ぁ');
            },
            'i' => {
                out.push('つ');
                out.push('ぃ');
            },
            'u' => {
                out.push('つ');
            },
            'e' => {
                out.push('つ');
                out.push('ぇ');
            },
            'o' => {
                out.push('つ');
                out.push('ぉ');
            },
            _ => {},
        },
        ('t', 'y') => match v {
            'a' => {
                out.push('ち');
                out.push('ゃ');
            },
            'u' => {
                out.push('ち');
                out.push('ゅ');
            },
            'o' => {
                out.push('ち');
                out.push('ょ');
            },
            _ => {},
        },
        ('c', 'h') => match v {
            'a' => {
                out.push('ち');
                out.push('ゃ');
            },
            'i' => {
                out.push('ち');
            },
            'u' => {
                out.push('ち');
                out.push('ゅ');
            },
            'e' => {
                out.push('ち');
                out.push('ぇ');
            },
            'o' => {
                out.push('ち');
                out.push('ょ');
            },
            _ => {},
        },
        ('n', 'y') => match v {
            'a' => {
                out.push('に');
                out.push('ゃ');
            },
            'u' => {
                out.push('に');
                out.push('ゅ');
            },
            'o' => {
                out.push('に');
                out.push('ょ');
            },
            _ => {},
        },
        ('h', 'y') => match v {
            'a' => {
                out.push('ひ');
                out.push('ゃ');
            },
            'u' => {
                out.push('ひ');
                out.push('ゅ');
            },
            'o' => {
                out.push('ひ');
                out.push('ょ');
            },
            _ => {},
        },
        ('m', 'y') => match v {
            'a' => {
                out.push('み');
                out.push('ゃ');
            },
            'u' => {
                out.push('み');
                out.push('ゅ');
            },
            'o' => {
                out.push('み');
                out.push('ょ');
            },
            _ => {},
        },
        ('r', 'y') => match v {
            'a' => {
                out.push('り');
                out.push('ゃ');
            },
            'u' => {
                out.push('り');
                out.push('ゅ');
            },
            'o' => {
                out.push('り');
                out.push('ょ');
            },
            _ => {},
        },
        ('g', 'y') => match v {
            'a' => {
                out.push('ぎ');
                out.push('ゃ');
            },
            'u' => {
                out.push('ぎ');
                out.push('ゅ');
            },
            'o' => {
                out.push('ぎ');
                out.push('ょ');
            },
            _ => {},
        },
        ('z', 'y') => match v {
            'a' => {
                out.push('じ');
                out.push('ゃ');
            },
            'u' => {
                out.push('じ');
                out.push('ゅ');
            },
            'o' => {
                out.push('じ');
                out.push('ょ');
            },
            _ => {},
        },
        ('b', 'y') => match v {
            'a' => {
                out.push('び');
                out.push('ゃ');
            },
            'u' => {
                out.push('び');
                out.push('ゅ');
            },
            'o' => {
                out.push('び');
                out.push('ょ');
            },
            _ => {},
        },
        ('p', 'y') => match v {
            'a' => {
                out.push('ぴ');
                out.push('ゃ');
            },
            'u' => {
                out.push('ぴ');
                out.push('ゅ');
            },
            'o' => {
                out.push('ぴ');
                out.push('ょ');
            },
            _ => {},
        },
        _ => {},
    }
}

/// Appends what the consonant `c` writes on its own to `out`.
fn push_alone(out: &mut String, c: char)
    ensures
        final(out)@ == old(out)@ + alone(c),
{
    if c == 'n' {
        out.push('ん');
    }
}

/// Appends the kana of the vowel `c` at index `i` of `chars` to `out`.
fn push_vowel(out: &mut String, chars: &Vec<char>, i: usize, c: char, prolonged: bool)
    requires
        i < chars@.len(),
        c == letter(chars@, i as int),
        is_vowel(c),
    ensures
        final(out)@ == old(out)@ + unit_kana(chars@, i as int, prolonged),
{
    if prolonged && i > 0 && chars[i - 1] == c {
        out.push(LONG_VOWEL_MARK);
    } else {
        match c {
            'a' => out.push('あ'),
            'i' => out.push('い'),
            'u' => out.push('う'),
            'e' => out.push('え'),
            _ => out.push('お'),
        }
    }
}

/// Transliterates the romanised text `romaji` into hiragana.
///
/// With `prolonged` set, a vowel that repeats the lower-case vowel just
/// before it is written as the prolonged sound mark instead of its own kana.
pub fn romaji_to_hiragana(romaji: &str, prolonged: bool) -> (kana: String)
    ensures
        kana@ == hiragana(romaji@, prolonged),
{
    let chars = chars_of(romaji);
    let n: usize = chars.len();
    let mut out = String::new();
    let mut i: usize = 0;
    while i < n
        invariant
            chars@ == romaji@,
            n == chars@.len(),
            i <= n,
            hiragana(romaji@, prolonged) == out@ + hiragana_from(chars@, i as int, prolonged),
        decreases n - i,
    {
        let ghost done = out@;
        let ghost start = i as int;
        let c = to_ascii_lower(chars[i]);
        match c {
            'a' | 'i' | 'u' | 'e' | 'o' => {
                push_vowel(&mut out, &chars, i, c, prolonged);
                i += 1;
            },
            _ => {
                if i + 1 >= n {
                    push_alone(&mut out, c);
                    i += 1;
                } else {
                    let d = to_ascii_lower(chars[i + 1]);
                    if push_syllable(&mut out, c, d) {
                        i += 2;
                    } else if d == c {
                        push_doubled(&mut out, c);
                        i += 1;
                    } else if glide_follows(c, d) {
                        if i + 2 >= n {
                            i += 2;
                        } else {
                            let v = to_ascii_lower(chars[i + 2]);
                            push_contracted(&mut out, c, d, v);
                            i += 3;
                        }
                    } else {
                        push_alone(&mut out, c);
                        i += 1;
                    }
                }
            },
        }
        assert(out@ == done + unit_kana(chars@, start, prolonged));
        assert(i == start + unit_len(chars@, start));
        assert(done + (unit_kana(chars@, start, prolonged) + hiragana_from(
            chars@,
            i as int,
            prolonged,
        )) == out@ + hiragana_from(chars@, i as int, prolonged));
    }
    assert(out@ + Seq::<char>::empty() == out@);
    out
}

} // verus!
