//! The lines that yt-dlp prints under the progress template
//! `download:SPARKLING|downloaded|total|estimated total|speed`.
use crate::text::{
    all_digits, chars_eq, chars_of, clean_is_one_piece, digits_value, has_prefix, is_digit,
    parse_number, parsed_number, pieces, prefix_comes_off, separator_parts_the_pieces, split,
    strip_prefix, trim, trimmed, without_prefix,
};
use crate::video::number::{double_as_u64, parse_double, whole_numbers_are_read};
use vstd::arithmetic::power2::pow2;
use vstd::prelude::*;

verus! {

/// One progress line.
#[derive(Debug, Clone, Copy, PartialEq, Eq)]
pub struct ProgressLine {
    pub downloaded: u64,
    /// The total, or else its estimate.
    pub total: Option<u64>,
    /// Bytes per second.
    pub speed: Option<u64>,
}

/// The number in a field: none in an empty field, in one that says NA, and in one that is
/// no number; otherwise the number without its fraction.
pub open spec fn field_value(s: Seq<char>) -> Option<int> {
    let t = trimmed(s);
    if t == "NA"@ || t.len() == 0 {
        None
    } else {
        double_as_u64(t)
    }
}

/// An optional machine number seen as an optional integer.
pub open spec fn opt_int(n: Option<u64>) -> Option<int> {
    match n {
        Some(v) => Some(v as int),
        None => None,
    }
}

/// The number in a field.
pub fn parse_na(s: &[char]) -> (r: Option<u64>)
    ensures
        opt_int(r) == field_value(s@),
{
    let t: &[char] = trim(s);
    if chars_eq(t, "NA") || t.len() == 0 {
        return None;
    }
    parse_double(t)
}

pub struct LineView {
    pub downloaded: int,
    pub total: Option<int>,
    pub speed: Option<int>,
}

impl View for ProgressLine {
    type V = LineView;

    open spec fn view(&self) -> LineView {
        LineView {
            downloaded: self.downloaded as int,
            total: opt_int(self.total),
            speed: opt_int(self.speed),
        }
    }
}

/// What a progress line says: behind the prefix at least four fields, of which the first
/// is a plain number. Other lines say nothing.
pub open spec fn line_view(line: Seq<char>) -> Option<LineView> {
    match without_prefix(trimmed(line), "SPARKLING|"@) {
        None => None,
        Some(rest) => {
            let parts = pieces(rest, '|');
            match parsed_number(trimmed(parts[0]), u64::MAX as nat) {
                None => None,
                Some(downloaded) => if parts.len() < 4 {
                    None
                } else {
                    let total = field_value(parts[1]);
                    let estimate = field_value(parts[2]);
                    Some(
                        LineView {
                            downloaded: downloaded as int,
                            total: if total is Some {
                                total
                            } else {
                                estimate
                            },
                            speed: field_value(parts[3]),
                        },
                    )
                },
            }
        },
    }
}

/// What a line says of the progress; `None` for lines that are no progress lines.
pub fn parse_progress_line(line: &str) -> (r: Option<ProgressLine>)
    ensures
        match r {
            Some(p) => line_view(line@) == Some(p@),
            None => line_view(line@) is None,
        },
{
    let all: Vec<char> = chars_of(line);
    let rest: &[char] = match strip_prefix(trim(all.as_slice()), "SPARKLING|") {
        Some(rest) => rest,
        None => {
            return None;
        },
    };
    let parts: Vec<Vec<char>> = split(rest, '|');
    let downloaded: u64 = match parse_number(trim(parts[0].as_slice()), u64::MAX) {
        Some(n) => n,
        None => {
            return None;
        },
    };
    if parts.len() < 4 {
        return None;
    }
    let total: Option<u64> = parse_na(parts[1].as_slice());
    let estimate: Option<u64> = parse_na(parts[2].as_slice());
    let speed: Option<u64> = parse_na(parts[3].as_slice());
    Some(
        ProgressLine {
            downloaded,
            total: if total.is_some() {
                total
            } else {
                estimate
            },
            speed,
        },
    )
}

/// Whether a line says that streams are being merged or audio extracted.
pub open spec fn announces_merge(line: Seq<char>) -> bool {
    "[Merger]"@.is_prefix_of(line) || "[ExtractAudio]"@.is_prefix_of(line)
}

/// Whether a line says that streams are being merged or audio extracted.
pub fn is_merge_line(line: &str) -> (r: bool)
    ensures
        r == announces_merge(line@),
{
    let all: Vec<char> = chars_of(line);
    has_prefix(all.as_slice(), "[Merger]") || has_prefix(all.as_slice(), "[ExtractAudio]")
}

// ---------------------------------------------------------------------------
// Laws
// ---------------------------------------------------------------------------
/// A progress line says how much has been downloaded in its first field, the total in its
/// second, or else its estimate in the third, and the speed in its fourth; further fields do
/// not matter. Without a plain number in the first field it says nothing.
pub proof fn progress_lines_are_read(
    line: Seq<char>,
    f0: Seq<char>,
    f1: Seq<char>,
    f2: Seq<char>,
    f3: Seq<char>,
    more: Seq<char>,
)
    requires
        !f0.contains('|'),
        !f1.contains('|'),
        !f2.contains('|'),
        !f3.contains('|'),
        ({
            let four = f0.push('|') + (f1.push('|') + (f2.push('|') + f3));
            let five = f0.push('|') + (f1.push('|') + (f2.push('|') + (f3.push('|') + more)));
            trimmed(line) == "SPARKLING|"@ + four || trimmed(line) == "SPARKLING|"@ + five
        }),
    ensures
        ({
            let n = parsed_number(trimmed(f0), u64::MAX as nat);
            &&& line_view(line) is Some <==> n is Some
            &&& n is Some ==> {
                let p = line_view(line)->0;
                &&& p.downloaded == n->0
                &&& field_value(f1) is Some ==> p.total == field_value(f1)
                &&& field_value(f1) is None ==> p.total == field_value(f2)
                &&& p.speed == field_value(f3)
            }
        }),
{
    clean_is_one_piece(f0, '|');
    clean_is_one_piece(f1, '|');
    clean_is_one_piece(f2, '|');
    clean_is_one_piece(f3, '|');
    let a2 = f2.push('|') + f3;
    let a1 = f1.push('|') + a2;
    let a0 = f0.push('|') + a1;
    separator_parts_the_pieces(f2, f3, '|');
    separator_parts_the_pieces(f1, a2, '|');
    separator_parts_the_pieces(f0, a1, '|');
    let b3 = f3.push('|') + more;
    let b2 = f2.push('|') + b3;
    let b1 = f1.push('|') + b2;
    let b0 = f0.push('|') + b1;
    separator_parts_the_pieces(f3, more, '|');
    separator_parts_the_pieces(f2, b3, '|');
    separator_parts_the_pieces(f1, b2, '|');
    separator_parts_the_pieces(f0, b1, '|');
    prefix_comes_off(trimmed(line), "SPARKLING|"@, a0);
    prefix_comes_off(trimmed(line), "SPARKLING|"@, b0);
    assert(pieces(a0, '|')[0] == f0 && pieces(a0, '|')[1] == f1 && pieces(a0, '|')[2] == f2
        && pieces(a0, '|')[3] == f3);
    assert(pieces(b0, '|')[0] == f0 && pieces(b0, '|')[1] == f1 && pieces(b0, '|')[2] == f2
        && pieces(b0, '|')[3] == f3);
}

/// Other lines say nothing: those without the mark, and those with fewer fields.
pub proof fn other_lines_say_nothing(line: Seq<char>, rest: Seq<char>)
    ensures
        !"SPARKLING|"@.is_prefix_of(trimmed(line)) ==> line_view(line) is None,
        trimmed(line) == "SPARKLING|"@ + rest && pieces(rest, '|').len() < 4 ==> line_view(line)
            is None,
{
    prefix_comes_off(trimmed(line), "SPARKLING|"@, rest);
}

/// A field that is empty or says NA has no value; a whole number up to 2^53 is its own value,
/// white space around it or not.
pub proof fn fields_have_their_number(s: Seq<char>, digits: Seq<char>)
    ensures
        trimmed(s).len() == 0 ==> field_value(s) is None,
        trimmed(s) == seq!['N', 'A'] ==> field_value(s) is None,
        digits.len() > 0 && all_digits(digits) && digits_value(digits) <= pow2(53) && trimmed(s)
            == digits ==> field_value(s) == Some(digits_value(digits) as int),
        trimmed(s).len() > 0 && trimmed(s) != seq!['N', 'A'] ==> field_value(s) == double_as_u64(
            trimmed(s),
        ),
{
    reveal_strlit("NA");
    assert("NA"@ =~= seq!['N', 'A']);
    if digits.len() > 0 && all_digits(digits) && digits_value(digits) <= pow2(53) {
        whole_numbers_are_read(digits);
        assert(is_digit(digits[0]));
    }
}

/// Merging and extracting are announced by the mark at the start of the line, and by nothing
/// else.
pub proof fn merges_are_announced_by_their_mark(rest: Seq<char>, line: Seq<char>)
    ensures
        announces_merge("[Merger]"@ + rest),
        announces_merge("[ExtractAudio]"@ + rest),
        announces_merge(line) ==> line.len() >= 8 && line[0] == '[' && (line[1] == 'M' || line[1]
            == 'E'),
{
    reveal_strlit("[Merger]");
    reveal_strlit("[ExtractAudio]");
    prefix_comes_off(rest, "[Merger]"@, rest);
    prefix_comes_off(rest, "[ExtractAudio]"@, rest);
    if "[Merger]"@.is_prefix_of(line) {
        assert(line[0] == "[Merger]"@[0] && line[1] == "[Merger]"@[1]);
    }
    if "[ExtractAudio]"@.is_prefix_of(line) {
        assert(line[0] == "[ExtractAudio]"@[0] && line[1] == "[ExtractAudio]"@[1]);
    }
}

/// A progress line is seen field by field.
pub proof fn progress_lines_show_every_field(p: ProgressLine, n: u64)
    ensures
        p@.downloaded == p.downloaded,
        p@.total is Some <==> p.total is Some,
        p.total is Some ==> p@.total->0 == p.total->0,
        p@.speed is Some <==> p.speed is Some,
        p.speed is Some ==> p@.speed->0 == p.speed->0,
        opt_int(Some(n)) == Some(n as int),
        opt_int(None) is None,
{
}

} // verus!
