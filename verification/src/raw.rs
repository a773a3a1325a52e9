//! What a decoded raw file holds, as plain values.

use crate::text::{begins, begins_with};
use rawler::decoders::RawDecodeParams;
use rawler::rawimage::RawImageData;
use rawler::rawsource::RawSource;
use vstd::prelude::*;
use vstd::string::*;

verus! {

/// The samples of a raw image.
pub enum RawSamples {
    /// Sensor counts.
    Integer(Vec<u16>),
    /// Bit patterns of single-precision values.
    Float(Vec<u32>),
}

/// What is used of a decoded raw file.
pub struct RawRecord {
    /// Camera model as encoded in the file.
    pub model: String,
    /// Letters of the color filter array.
    pub cfa_name: String,
    /// Samples per row.
    pub width: u32,
    /// Number of rows.
    pub height: u32,
    /// The samples, row after row.
    pub samples: RawSamples,
    /// Black levels as numerators and denominators.
    pub black_levels: Vec<(u32, u32)>,
    /// White levels.
    pub white_levels: Vec<u32>,
    /// Bit patterns of the white balance coefficients.
    pub wb_coeffs: [u32; 4],
}

/// Why a raw file could not be read.
pub enum RawError {
    /// There is no decoder for it, in the words of the search for one.
    NoDecoder(String),
    /// The decoder gave up, with its own words.
    Undecodable(String),
}

impl RawError {
    /// What went wrong, in words.
    pub fn message(&self) -> (r: String)
        ensures
            r@ == match *self {
                RawError::NoDecoder(text) => "Failed to get decoder: "@ + text@,
                RawError::Undecodable(text) => "Failed to decode raw image: "@ + text@,
            },
    {
        match self {
            RawError::NoDecoder(text) => "Failed to get decoder: ".to_owned().concat(text.as_str()),
            RawError::Undecodable(text) => "Failed to decode raw image: ".to_owned().concat(
                text.as_str(),
            ),
        }
    }
}

/// The color that a letter of a filter pattern stands for.
pub open spec fn color_code(letter: char) -> Option<u8> {
    if letter == 'R' {
        Some(0)
    } else if letter == 'G' {
        Some(1)
    } else if letter == 'B' {
        Some(2)
    } else if letter == 'E' || letter == 'C' {
        Some(3)
    } else if letter == 'M' {
        Some(4)
    } else if letter == 'Y' {
        Some(5)
    } else {
        None
    }
}

/// The columns after which a pattern of `len` letters repeats; none where there is no such pattern.
pub open spec fn pattern_width(len: nat) -> Option<nat> {
    if len == 0 {
        Some(0)
    } else if len == 4 || len == 16 {
        Some(2)
    } else if len == 36 {
        Some(6)
    } else if len == 144 {
        Some(12)
    } else {
        None
    }
}

/// Whether the letters name a filter pattern.
pub open spec fn is_pattern(name: Seq<char>) -> bool {
    &&& pattern_width(name.len()) is Some
    &&& forall|i: int| 0 <= i < name.len() ==> color_code(#[trigger] name[i]) is Some
}

/// The color at one place of a filter pattern, which repeats in both directions; always the first
/// color where the pattern is empty.
pub open spec fn pattern_color(name: Seq<char>, row: int, col: int) -> int {
    if name.len() == 0 {
        0
    } else {
        let width = pattern_width(name.len())->0 as int;
        let height = name.len() as int / width;
        color_code(name[(row % height) * width + col % width])->0 as int
    }
}

/// Decode a raw file with `rawler::decode` and default parameters.
///
/// Believed of it: the filter pattern of the camera has a name that the decoder itself can build a
/// pattern from. The rest of the result is left open, since the decoder also goes by environment
/// variables. The decoder turns its own panics into errors.
#[verifier::external_body]
fn decode_raw(file_bytes: &Vec<u8>) -> (r: Result<RawRecord, String>)
    ensures
        r matches Ok(raw) ==> is_pattern(raw.cfa_name@),
{
    let source = RawSource::new_from_slice(file_bytes);
    let raw = rawler::decode(&source, &RawDecodeParams::default());
    raw.map_err(|e| e.to_string()).map(|raw| RawRecord {
        model: raw.model,
        cfa_name: raw.camera.cfa.name,
        width: raw.width as u32,
        height: raw.height as u32,
        samples: match raw.data {
            RawImageData::Integer(d) => RawSamples::Integer(d),
            RawImageData::Float(d) => RawSamples::Float(d.iter().map(|v| v.to_bits()).collect()),
        },
        black_levels: raw.blacklevel.levels.iter().map(|l| (l.n, l.d)).collect(),
        white_levels: raw.whitelevel.0,
        wb_coeffs: raw.wb_coeffs.map(|v| v.to_bits()),
    })
}

/// Whether the decoder came out with `answer`. Another run on the same file may come out otherwise.
pub closed spec fn decoder_says(file_bytes: &Vec<u8>, answer: Result<RawRecord, String>) -> bool {
    call_ensures(decode_raw, (file_bytes,), answer)
}

/// Whether the decoder gave up because of a panic of its own, by its words.
pub open spec fn tells_of_panic(text: Seq<char>) -> bool {
    begins(
        text,
        "Failed to decode image, possibly corrupt image. Origin error was: Caught a panic"@,
    )
}

/// Whether the decoder gave up on a file without a panic.
pub open spec fn gave_up_calmly(file_bytes: &Vec<u8>) -> bool {
    exists|text: String| #[trigger]
        decoder_says(file_bytes, Err(text)) && !tells_of_panic(text@)
}

/// Search a decoder for a raw file with `rawler::get_decoder`.
///
/// Nothing is believed of the answer. It is asked only of a file on which the decoder gave up
/// without a panic: `rawler::decode` makes the same search first, and tells where that panics.
#[verifier::external_body]
fn search_decoder(file_bytes: &Vec<u8>) -> (r: Result<(), String>)
    requires
        gave_up_calmly(file_bytes),
{
    let source = RawSource::new_from_slice(file_bytes);
    rawler::get_decoder(&source).map(|_| ()).map_err(|e| e.to_string())
}

/// Whether the search for a decoder came out with `answer`.
pub closed spec fn search_says(file_bytes: &Vec<u8>, answer: Result<(), String>) -> bool {
    call_ensures(search_decoder, (file_bytes,), answer)
}

/// Why a file could not be read: `text` is what the decoder said, and `search` what the search for
/// a decoder did.
pub open spec fn failure_of(text: String, search: Result<(), String>) -> RawError {
    match search {
        Err(words) => RawError::NoDecoder(words),
        Ok(_) => RawError::Undecodable(text),
    }
}

/// Why a file could not be read, given what the decoder and the search for a decoder said.
pub fn raw_failure(text: String, search: Result<(), String>) -> (e: RawError)
    ensures
        e == failure_of(text, search),
{
    match search {
        Err(words) => RawError::NoDecoder(words),
        Ok(_) => RawError::Undecodable(text),
    }
}

/// Whether reading a raw file came out as `outcome`: what the decoder found, or where it gave up
/// what the search for a decoder, and else the decoder, says. After a panic no decoder is searched.
pub open spec fn decodes_to(file_bytes: &Vec<u8>, outcome: Result<RawRecord, RawError>) -> bool {
    match outcome {
        Ok(raw) => decoder_says(file_bytes, Ok(raw)),
        Err(e) => exists|text: String| #[trigger]
            decoder_says(file_bytes, Err(text)) && if tells_of_panic(text@) {
                e == RawError::Undecodable(text)
            } else {
                exists|search: Result<(), String>| #[trigger]
                    search_says(file_bytes, search) && e == failure_of(text, search)
            },
    }
}

/// Read a raw file.
pub(crate) fn decode_file(file_bytes: &Vec<u8>) -> (outcome: Result<RawRecord, RawError>)
    ensures
        decodes_to(file_bytes, outcome),
        outcome matches Ok(raw) ==> is_pattern(raw.cfa_name@),
{
    let decode = decode_raw;
    match decode(file_bytes) {
        Ok(raw) => Ok(raw),
        Err(text) => {
            assert(decoder_says(file_bytes, Err(text)));
            if begins_with(
                text.as_str(),
                "Failed to decode image, possibly corrupt image. Origin error was: Caught a panic",
            ) {
                return Err(RawError::Undecodable(text));
            }
            assert(decoder_says(file_bytes, Err(text)) && !tells_of_panic(text@));
            let search = search_decoder;
            assert(gave_up_calmly(file_bytes));
            let found = search(file_bytes);
            assert(search_says(file_bytes, found));
            Err(raw_failure(text, found))
        },
    }
}

/// The colors of a filter pattern, row after row: `rawler::CFA::new` builds the pattern, and
/// `flat_pattern` lists it.
///
/// Believed of them: the list holds the color of each letter, in the order of the letters.
#[verifier::external_body]
fn flat_colors(name: &str) -> (r: Vec<u8>)
    requires
        is_pattern(name@),
    ensures
        r@.len() == name@.len(),
        forall|i: int| 0 <= i < name@.len() ==> Some(#[trigger] r@[i]) == color_code(name@[i]),
{
    rawler::CFA::new(name).flat_pattern()
}

/// A color filter array.
pub struct Cfa {
    /// The letters of the pattern, row after row.
    pub name: String,
    /// Columns after which the pattern repeats.
    pub width: usize,
    /// Rows after which the pattern repeats.
    pub height: usize,
    /// Colors of one period, row after row: 0 for red, 1 for green, 2 for blue.
    pub colors: Vec<u8>,
}

impl Cfa {
    /// Whether the colors are those of the name.
    pub open spec fn wf(&self) -> bool {
        &&& is_pattern(self.name@)
        &&& Some(self.width as nat) == pattern_width(self.name@.len())
        &&& self.colors@.len() == self.name@.len()
        &&& self.width * self.height == self.name@.len()
        &&& forall|i: int|
            0 <= i < self.name@.len() ==> Some(#[trigger] self.colors@[i]) == color_code(
                self.name@[i],
            )
    }

    /// The filter array that the letters name.
    pub fn new(name: &str) -> (r: Cfa)
        requires
            is_pattern(name@),
        ensures
            r.wf(),
            r.name@ == name@,
    {
        let colors = flat_colors(name);
        let (width, height): (usize, usize) = match colors.len() {
            4 => (2, 2),
            16 => (2, 8),
            36 => (6, 6),
            144 => (12, 12),
            _ => (0, 0),
        };
        assert(width * height == colors@.len()) by (nonlinear_arith)
            requires
                (width == 2 && height == 2 && colors@.len() == 4) || (width == 2 && height == 8
                    && colors@.len() == 16) || (width == 6 && height == 6 && colors@.len() == 36)
                    || (width == 12 && height == 12 && colors@.len() == 144) || (width == 0 && height
                    == 0 && colors@.len() == 0),
        ;
        Cfa { name: name.to_owned(), width, height, colors }
    }

    /// The color at one place: 0 for red, 1 for green, 2 for blue, and so on.
    pub fn color_at(&self, row: usize, col: usize) -> (color: usize)
        requires
            self.wf(),
        ensures
            color == pattern_color(self.name@, row as int, col as int),
            color <= 5,
    {
        if self.width == 0 {
            return 0;
        }
        proof {
            let (w, h) = (self.width as int, self.height as int);
            assert(h == self.name@.len() as int / w && h > 0 && w <= 12 && h <= 12) by {
                assert(w == 2 || w == 6 || w == 12);
                if w == 2 {
                    assert(2 * h == self.name@.len());
                } else if w == 6 {
                    assert(6 * h == 36);
                } else {
                    assert(12 * h == 144);
                }
            }
            crate::frame::lemma_pixel_index(col as int % w, row as int % h, w, h);
        }
        let i: usize = (row % self.height) * self.width + col % self.width;
        assert(Some(self.colors@[i as int]) == color_code(self.name@[i as int]));
        self.colors[i] as usize
    }
}

/// A filter pattern repeats: the color does not change from one period to the next.
pub proof fn pattern_repeats(name: Seq<char>, row: int, col: int, down: int, right: int)
    requires
        is_pattern(name),
        name.len() > 0,
    ensures
        ({
            let width = pattern_width(name.len())->0 as int;
            let height = name.len() as int / width;
            pattern_color(name, row + down * height, col + right * width) == pattern_color(
                name,
                row,
                col,
            )
        }),
{
    let width = pattern_width(name.len())->0 as int;
    let height = name.len() as int / width;
    vstd::arithmetic::div_mod::lemma_mod_multiples_vanish(right, col, width);
    vstd::arithmetic::div_mod::lemma_mod_multiples_vanish(down, row, height);
    assert(col + right * width == width * right + col) by (nonlinear_arith);
    assert(row + down * height == height * down + row) by (nonlinear_arith);
}

/// A filter pattern is read row by row, two letters of four or sixteen, six of thirty-six and twelve of a
/// hundred and forty-four wide: red is 0, green 1 and blue 2.
pub proof fn patterns_are_read_row_by_row(name: Seq<char>, width: int, row: int, col: int)
    requires
        is_pattern(name),
        name.len() == 4 || name.len() == 16 ==> width == 2,
        name.len() == 36 ==> width == 6,
        name.len() == 144 ==> width == 12,
        name.len() > 0,
        0 <= col < width,
        0 <= row,
        row * width + col < name.len(),
    ensures
        name[row * width + col] == 'R' ==> pattern_color(name, row, col) == 0,
        name[row * width + col] == 'G' ==> pattern_color(name, row, col) == 1,
        name[row * width + col] == 'B' ==> pattern_color(name, row, col) == 2,
{
    let height = name.len() as int / width;
    assert(width * height == name.len());
    assert(row < height) by (nonlinear_arith)
        requires
            row * width + col < width * height,
            0 <= col,
            0 < width,
    ;
    vstd::arithmetic::div_mod::lemma_small_mod(row as nat, height as nat);
    vstd::arithmetic::div_mod::lemma_small_mod(col as nat, width as nat);
}

} // verus!
