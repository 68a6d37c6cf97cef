//! The text form of a grid: `LEVEL_HEIGHT` lines, the top row first, one
//! character for each tile and a `|` at the end of each line.
//!
//! The format is stated in plain numbers: 11 is `Levels::LEVEL_HEIGHT`, the
//! lines of a text and the tiles of a column; 14 is `Levels::LEVEL_WIDTH - 1`,
//! the columns of a level.

use crate::level::{index_view, lemma_level_sizes, Grid, Levels, ParseLevelError};
use vstd::prelude::*;
use vstd::string::StringExecFns;

verus! {

/// `line` without the carriage return that it ends in, if it ends in one.
pub open spec fn without_return(line: Seq<char>) -> Seq<char> {
    if line.len() > 0 && line.last() == '\r' {
        line.drop_last()
    } else {
        line
    }
}

/// The lines of `text` from `start` on, where everything before `at` is
/// known to hold no line feed.
pub open spec fn lines_scan(text: Seq<char>, start: int, at: int) -> Seq<Seq<char>>
    decreases text.len() - at,
{
    if at >= text.len() {
        if start < text.len() {
            seq![text.subrange(start, text.len() as int)]
        } else {
            Seq::empty()
        }
    } else if text[at] == '\n' {
        seq![without_return(text.subrange(start, at))] + lines_scan(text, at + 1, at + 1)
    } else {
        lines_scan(text, start, at + 1)
    }
}

/// The lines of `text`. A line ends at a line feed, or at a carriage return
/// that a line feed follows; neither belongs to the line. What follows the
/// last line feed is a line too, unless it is empty.
pub open spec fn lines_of(text: Seq<char>) -> Seq<Seq<char>> {
    lines_scan(text, 0, 0)
}

/// The lines that a vector of lines holds.
pub open spec fn line_views(lines: Seq<Vec<char>>) -> Seq<Seq<char>> {
    Seq::new(lines.len(), |i: int| lines[i]@)
}

/// The line that the `n`-th character of the scan is on, counted from the
/// top. The scan reads a grid column by column and each column from the last
/// line up, which is from row 0 up.
pub open spec fn cell_line(n: nat) -> nat {
    (10 - n % 11) as nat
}

/// The place in its line of the `n`-th character of the scan.
pub open spec fn cell_column(n: nat) -> nat {
    n / 11
}

/// The `n`-th character of the scan, if its line is long enough to have it.
pub open spec fn cell_char(rows: Seq<Seq<char>>, n: nat) -> Option<char> {
    let line = rows[cell_line(n) as int];
    if cell_column(n) < line.len() {
        Some(line[cell_column(n) as int])
    } else {
        None
    }
}

/// Whether the scan has read `gem` before its `n`-th character.
pub open spec fn gem_seen(rows: Seq<Seq<char>>, n: nat, gem: char) -> bool {
    exists|m: nat| m < n && #[trigger] cell_char(rows, m) == Some(gem)
}

/// What is wrong with the `n`-th character of the scan as a tile, if anything.
pub open spec fn cell_fault(rows: Seq<Seq<char>>, n: nat) -> Option<ParseLevelError> {
    match cell_char(rows, n) {
        None => Some(ParseLevelError::LineEndsEarly(cell_line(n) as usize)),
        Some(c) => if c == ' ' || c == 'x' {
            None
        } else if c == 'e' || c == 'E' {
            if gem_seen(rows, n, c) {
                Some(ParseLevelError::DuplicateGem(c))
            } else {
                None
            }
        } else {
            Some(ParseLevelError::InvalidTileCharacter(c))
        },
    }
}

/// Whether the top line has its `|` at `column`.
pub open spec fn closes_at(rows: Seq<Seq<char>>, column: nat) -> bool {
    column < rows[0].len() && rows[0][column as int] == '|'
}

/// Whether the scan ends with its `n`-th character: because that character
/// is no tile, or because it is the last of a column after which the top line
/// closes.
pub open spec fn stops_at(rows: Seq<Seq<char>>, n: nat) -> bool {
    cell_fault(rows, n) is Some || ((n + 1) % 11 == 0 && closes_at(rows, (n + 1) / 11))
}

/// A character at which the scan is sure to end: the first that the top line
/// is too short for.
pub open spec fn scan_limit(rows: Seq<Seq<char>>) -> nat {
    rows[0].len() * 11 + 10
}

/// The first character from `from` on with which the scan ends.
pub open spec fn first_stop(rows: Seq<Seq<char>>, from: nat) -> nat
    decreases scan_limit(rows) - from,
{
    if from >= scan_limit(rows) || stops_at(rows, from) {
        from
    } else {
        first_stop(rows, from + 1)
    }
}

/// What is wrong with the end of line `line`, given that the grid is `width`
/// tiles wide: the line must be a `|` after `width` characters, and no more.
pub open spec fn ending_fault(rows: Seq<Seq<char>>, width: nat, line: nat) -> Option<
    ParseLevelError,
> {
    let text = rows[line as int];
    if text.len() <= width {
        Some(ParseLevelError::LineEndsEarly(line as usize))
    } else if text[width as int] != '|' {
        Some(ParseLevelError::InvalidEndingCharacter(text[width as int]))
    } else if text.len() > width + 1 {
        Some(ParseLevelError::InvalidTileCharacter('|'))
    } else {
        None
    }
}

/// The fault of the first line from `from` down whose end is wrong.
pub open spec fn first_ending_fault(rows: Seq<Seq<char>>, width: nat, from: nat) -> Option<
    ParseLevelError,
>
    decreases 11 - from,
{
    if from >= 11 {
        None
    } else if ending_fault(rows, width, from) is Some {
        ending_fault(rows, width, from)
    } else {
        first_ending_fault(rows, width, from + 1)
    }
}

/// The tile that `gem` marks among the first `end` characters of the scan.
pub open spec fn gem_position(rows: Seq<Seq<char>>, end: nat, gem: char) -> Option<nat> {
    if exists|n: nat| n < end && #[trigger] cell_char(rows, n) == Some(gem) {
        Some(choose|n: nat| n < end && #[trigger] cell_char(rows, n) == Some(gem))
    } else {
        None
    }
}

/// The grid that lines of `width` tile characters stand for: tile `n` is the
/// `n`-th character of the scan, `true` where it is an `x`; `e` marks the
/// limited gem and `E` the full gem; the first level is active.
pub open spec fn decoded(rows: Seq<Seq<char>>, width: nat) -> Grid {
    Grid {
        tiles: Seq::new(width * 11, |n: int| cell_char(rows, n as nat) == Some('x')),
        num_levels: width / 14,
        level_index: 0,
        x_offset: 0,
        limited_gem: gem_position(rows, width * 11, 'e'),
        full_gem: gem_position(rows, width * 11, 'E'),
    }
}

/// The grid that eleven lines stand for, or the first thing wrong with them
/// in the order in which they are read: the tiles column by column up to the
/// column after which the top line closes, then the ends of the lines from
/// the top line down, then the width.
pub open spec fn parse_rows(rows: Seq<Seq<char>>) -> Result<Grid, ParseLevelError> {
    if rows.len() != 11 {
        Err(ParseLevelError::InvalidHeight)
    } else {
        let stop = first_stop(rows, 0);
        let width = (stop + 1) / 11;
        if cell_fault(rows, stop) is Some {
            Err(cell_fault(rows, stop)->0)
        } else if first_ending_fault(rows, width, 0) is Some {
            Err(first_ending_fault(rows, width, 0)->0)
        } else if width % 14 != 0 {
            Err(ParseLevelError::InvalidWidth)
        } else {
            Ok(decoded(rows, width))
        }
    }
}

/// The grid that a text stands for, or what is wrong with the text.
pub open spec fn parse_text(text: Seq<char>) -> Result<Grid, ParseLevelError> {
    parse_rows(lines_of(text))
}

/// The scan ends at the first character at which it can end.
proof fn lemma_first_stop(rows: Seq<Seq<char>>, from: nat, stop: nat)
    requires
        rows.len() == 11,
        from <= stop,
        from <= scan_limit(rows),
        forall|m: nat| from <= m < stop ==> !#[trigger] stops_at(rows, m),
        stops_at(rows, stop),
    ensures
        first_stop(rows, from) == stop,
    decreases stop - from,
{
    let limit = scan_limit(rows);
    assert(cell_line(limit) == 0 && cell_column(limit) == rows[0].len());
    assert(cell_char(rows, limit) is None);
    assert(stops_at(rows, limit));
    if from < stop {
        assert(!stops_at(rows, from));
        lemma_first_stop(rows, from + 1, stop);
    }
}

/// No line's end is wrong if none is wrong from `from` down.
proof fn lemma_first_ending_fault(rows: Seq<Seq<char>>, width: nat, from: nat, hit: nat)
    requires
        from <= hit <= 11,
        forall|i: nat| from <= i < hit ==> #[trigger] ending_fault(rows, width, i) is None,
        hit < 11 ==> ending_fault(rows, width, hit) is Some,
    ensures
        first_ending_fault(rows, width, from) == if hit < 11 {
            ending_fault(rows, width, hit)
        } else {
            None
        },
    decreases hit - from,
{
    if from < hit {
        assert(ending_fault(rows, width, from) is None);
        lemma_first_ending_fault(rows, width, from + 1, hit);
    }
}

/// A gem is where the one character that marks it is.
proof fn lemma_gem_position(rows: Seq<Seq<char>>, end: nat, gem: char, found: Option<nat>)
    requires
        found is Some ==> found->0 < end,
        forall|m: nat| m < end ==> (#[trigger] cell_char(rows, m) == Some(gem) <==> found == Some(m)),
    ensures
        gem_position(rows, end, gem) == found,
{
    if found is Some {
        let g = found->0;
        assert(cell_char(rows, g) == Some(gem));
    }
}

/// The characters of `text`.
pub fn chars_of(text: &str) -> (chars: Vec<char>)
    ensures
        chars@ == text@,
{
    broadcast use vstd::string::group_string_axioms;

    let mut chars: Vec<char> = Vec::new();
    for c in it: text.chars()
        invariant
            it.seq() == text@,
            chars@ == it.seq().take(it.index() as int),
    {
        chars.push(c);
    }
    assert(chars@ =~= text@);
    chars
}

/// Cuts `text` into its lines.
pub fn split_lines(text: &Vec<char>) -> (lines: Vec<Vec<char>>)
    ensures
        line_views(lines@) == lines_of(text@),
{
    let mut lines: Vec<Vec<char>> = Vec::new();
    let mut current: Vec<char> = Vec::new();
    let mut start: usize = 0;
    let mut at: usize = 0;
    while at < text.len()
        invariant
            start <= at <= text.len(),
            current@ == text@.subrange(start as int, at as int),
            lines_of(text@) == line_views(lines@) + lines_scan(text@, start as int, at as int),
        decreases text.len() - at,
    {
        let c = text[at];
        if c == '\n' {
            if current.len() > 0 && current[current.len() - 1] == '\r' {
                current.pop();
            }
            assert(current@ =~= without_return(text@.subrange(start as int, at as int)));
            let ghost done = line_views(lines@);
            lines.push(current);
            assert(line_views(lines@) =~= done + seq![
                without_return(text@.subrange(start as int, at as int)),
            ]);
            current = Vec::new();
            start = at + 1;
            at = at + 1;
            assert(current@ =~= text@.subrange(start as int, at as int));
            assert(lines_of(text@) =~= line_views(lines@) + lines_scan(
                text@,
                start as int,
                at as int,
            ));
        } else {
            current.push(c);
            at = at + 1;
            assert(current@ =~= text@.subrange(start as int, at as int));
        }
    }
    if start < text.len() {
        let ghost done = line_views(lines@);
        assert(current@ =~= text@.subrange(start as int, text@.len() as int));
        lines.push(current);
        assert(line_views(lines@) =~= done + seq![text@.subrange(start as int, text@.len() as int)]);
    } else {
        assert(line_views(lines@) =~= line_views(lines@) + Seq::<Seq<char>>::empty());
    }
    lines
}

/// What reading the first `n` characters of the scan has gathered, if none of
/// them was at fault: a tile for each, and the places of the gems among them.
pub open spec fn gathered(
    rows: Seq<Seq<char>>,
    n: nat,
    tiles: Seq<bool>,
    limited_gem: Option<nat>,
    full_gem: Option<nat>,
) -> bool {
    &&& tiles.len() == n
    &&& forall|m: nat| m < n ==> #[trigger] cell_fault(rows, m) is None
    &&& forall|m: nat| m < n ==> tiles[m as int] == (#[trigger] cell_char(rows, m) == Some('x'))
    &&& limited_gem is Some ==> limited_gem->0 < n
    &&& full_gem is Some ==> full_gem->0 < n
    &&& forall|m: nat|
        m < n ==> (#[trigger] cell_char(rows, m) == Some('e') <==> limited_gem == Some(m))
    &&& forall|m: nat|
        m < n ==> (#[trigger] cell_char(rows, m) == Some('E') <==> full_gem == Some(m))
}

/// Whether the top line does not close after any of the first `column`
/// columns.
pub open spec fn open_through(rows: Seq<Seq<char>>, column: nat) -> bool {
    forall|c: nat| 1 <= c <= column ==> !#[trigger] closes_at(rows, c)
}

/// Before the `n`-th character the scan does not end, if none of the
/// characters before it is at fault and the top line does not close after any
/// of the columns before the one of the `n`-th character.
proof fn lemma_no_stop_before(rows: Seq<Seq<char>>, n: nat)
    requires
        rows.len() == 11,
        forall|m: nat| m < n ==> #[trigger] cell_fault(rows, m) is None,
        open_through(rows, n / 11),
        n / 11 <= rows[0].len(),
    ensures
        forall|m: nat| m < n ==> !#[trigger] stops_at(rows, m),
        n <= scan_limit(rows),
{
    assert forall|m: nat| m < n implies !#[trigger] stops_at(rows, m) by {
        assert(cell_fault(rows, m) is None);
        if (m + 1) % 11 == 0 {
            let c = (m + 1) / 11;
            assert(1 <= c <= n / 11);
            assert(!closes_at(rows, c));
        }
    }
}

/// Reading fails with the fault of the `n`-th character, if the characters
/// before it were read and it is at fault.
proof fn lemma_fails_at(
    rows: Seq<Seq<char>>,
    n: nat,
    tiles: Seq<bool>,
    limited_gem: Option<nat>,
    full_gem: Option<nat>,
)
    requires
        rows.len() == 11,
        gathered(rows, n, tiles, limited_gem, full_gem),
        open_through(rows, n / 11),
        n / 11 <= rows[0].len(),
        cell_fault(rows, n) is Some,
    ensures
        parse_rows(rows) == Err::<Grid, ParseLevelError>(cell_fault(rows, n)->0),
{
    lemma_no_stop_before(rows, n);
    lemma_first_stop(rows, 0, n);
}

/// A gem that was read before is a duplicate.
proof fn lemma_duplicate(
    rows: Seq<Seq<char>>,
    n: nat,
    tiles: Seq<bool>,
    limited_gem: Option<nat>,
    full_gem: Option<nat>,
    gem: char,
)
    requires
        gathered(rows, n, tiles, limited_gem, full_gem),
        cell_char(rows, n) == Some(gem),
        gem == 'e' && limited_gem is Some || gem == 'E' && full_gem is Some,
    ensures
        cell_fault(rows, n) == Some(ParseLevelError::DuplicateGem(gem)),
{
    let before = if gem == 'e' {
        limited_gem->0
    } else {
        full_gem->0
    };
    assert(cell_char(rows, before) == Some(gem));
    assert(gem_seen(rows, n, gem));
}

/// One more character read: its tile is gathered, and its place if it is a
/// gem.
proof fn lemma_gathers(
    rows: Seq<Seq<char>>,
    n: nat,
    tiles: Seq<bool>,
    limited_gem: Option<nat>,
    full_gem: Option<nat>,
    character: char,
)
    requires
        gathered(rows, n, tiles, limited_gem, full_gem),
        cell_char(rows, n) == Some(character),
        character == ' ' || character == 'x' || (character == 'e' && limited_gem is None) || (
        character == 'E' && full_gem is None),
    ensures
        cell_fault(rows, n) is None,
        gathered(
            rows,
            n + 1,
            tiles.push(character == 'x'),
            if character == 'e' {
                Some(n)
            } else {
                limited_gem
            },
            if character == 'E' {
                Some(n)
            } else {
                full_gem
            },
        ),
{
    if character == 'e' || character == 'E' {
        if gem_seen(rows, n, character) {
            let m = choose|m: nat| m < n && #[trigger] cell_char(rows, m) == Some(character);
            assert(false);
        }
    }
    let longer = tiles.push(character == 'x');
    assert forall|m: nat| m < n + 1 implies longer[m as int] == (#[trigger] cell_char(rows, m)
        == Some('x')) by {
        if m < n {
            assert(longer[m as int] == tiles[m as int]);
        }
    }
}

/// Reading succeeds, if all tiles of `width` columns were read, the top line
/// closes after them, every line ends as it must, and the width is a whole
/// number of levels.
proof fn lemma_succeeds(
    rows: Seq<Seq<char>>,
    width: nat,
    tiles: Seq<bool>,
    limited_gem: Option<nat>,
    full_gem: Option<nat>,
)
    requires
        rows.len() == 11,
        width >= 1,
        gathered(rows, width * 11, tiles, limited_gem, full_gem),
        open_through(rows, (width - 1) as nat),
        closes_at(rows, width),
    ensures
        first_stop(rows, 0) == width * 11 - 1,
        cell_fault(rows, (width * 11 - 1) as nat) is None,
        first_ending_fault(rows, width, 0) is None && width % 14 == 0 ==> parse_rows(rows) == Ok::<
            Grid,
            ParseLevelError,
        >(
            Grid {
                tiles,
                num_levels: width / 14,
                level_index: 0,
                x_offset: 0,
                limited_gem,
                full_gem,
            },
        ),
        first_ending_fault(rows, width, 0) is Some ==> parse_rows(rows) == Err::<
            Grid,
            ParseLevelError,
        >(first_ending_fault(rows, width, 0)->0),
        first_ending_fault(rows, width, 0) is None && width % 14 != 0 ==> parse_rows(rows) == Err::<
            Grid,
            ParseLevelError,
        >(ParseLevelError::InvalidWidth),
{
    let last = (width * 11 - 1) as nat;
    assert(last / 11 == width - 1);
    assert((last + 1) % 11 == 0 && (last + 1) / 11 == width);
    lemma_no_stop_before(rows, last);
    assert(cell_fault(rows, last) is None);
    assert(stops_at(rows, last));
    lemma_first_stop(rows, 0, last);
    lemma_gem_position(rows, width * 11, 'e', limited_gem);
    lemma_gem_position(rows, width * 11, 'E', full_gem);
    assert(decoded(rows, width).tiles =~= tiles) by {
        assert forall|m: int| 0 <= m < width * 11 implies decoded(rows, width).tiles[m]
            == tiles[m] by {
            assert(tiles[m] == (cell_char(rows, m as nat) == Some('x')));
        }
    }
}

/// Reads the character at `column` of a line as a tile.
///
/// The result is the tile, with the gem that the character stands for put
/// down at `at` where that gem has no place yet, or the fault of a character
/// that stands for no tile or for a gem that has its place.
fn read_tile(
    character: char,
    at: usize,
    limited_gem: &mut Option<usize>,
    full_gem: &mut Option<usize>,
) -> (result: Result<bool, ParseLevelError>)
    ensures
        result == (if character == ' ' || character == 'x' {
            Ok::<bool, ParseLevelError>(character == 'x')
        } else if character == 'e' {
            if *old(limited_gem) is None {
                Ok(false)
            } else {
                Err(ParseLevelError::DuplicateGem('e'))
            }
        } else if character == 'E' {
            if *old(full_gem) is None {
                Ok(false)
            } else {
                Err(ParseLevelError::DuplicateGem('E'))
            }
        } else {
            Err(ParseLevelError::InvalidTileCharacter(character))
        }),
        *final(limited_gem) == if character == 'e' && *old(limited_gem) is None {
            Some(at)
        } else {
            *old(limited_gem)
        },
        *final(full_gem) == if character == 'E' && *old(full_gem) is None {
            Some(at)
        } else {
            *old(full_gem)
        },
{
    if character == ' ' {
        Ok(false)
    } else if character == 'x' {
        Ok(true)
    } else if character == 'e' {
        if limited_gem.is_none() {
            *limited_gem = Some(at);
            Ok(false)
        } else {
            Err(ParseLevelError::DuplicateGem('e'))
        }
    } else if character == 'E' {
        if full_gem.is_none() {
            *full_gem = Some(at);
            Ok(false)
        } else {
            Err(ParseLevelError::DuplicateGem('E'))
        }
    } else {
        Err(ParseLevelError::InvalidTileCharacter(character))
    }
}

/// Checks that every line ends in a `|` after `width` characters.
fn check_endings(lines: &Vec<Vec<char>>, width: usize) -> (result: Result<(), ParseLevelError>)
    requires
        lines.len() == 11,
    ensures
        match result {
            Ok(_) => first_ending_fault(line_views(lines@), width as nat, 0) is None,
            Err(fault) => first_ending_fault(line_views(lines@), width as nat, 0) == Some(fault),
        },
{
    let ghost rows = line_views(lines@);
    let mut i: usize = 0;
    while i < Levels::LEVEL_HEIGHT
        invariant
            lines.len() == 11,
            rows == line_views(lines@),
            i <= 11,
            forall|j: nat| j < i ==> #[trigger] ending_fault(rows, width as nat, j) is None,
        decreases 11 - i,
    {
        let line = &lines[i];
        assert(rows[i as int] == line@);
        if width >= line.len() {
            proof {
                lemma_first_ending_fault(rows, width as nat, 0, i as nat);
            }
            return Err(ParseLevelError::LineEndsEarly(i));
        }
        let next = line[width];
        if next != '|' {
            proof {
                lemma_first_ending_fault(rows, width as nat, 0, i as nat);
            }
            return Err(ParseLevelError::InvalidEndingCharacter(next));
        }
        if line.len() > width + 1 {
            proof {
                lemma_first_ending_fault(rows, width as nat, 0, i as nat);
            }
            return Err(ParseLevelError::InvalidTileCharacter('|'));
        }
        i += 1;
    }
    proof {
        lemma_first_ending_fault(rows, width as nat, 0, 11);
    }
    Ok(())
}

/// Reads a grid from its lines.
///
/// The result is the grid that the lines stand for, with the first level
/// active, or the first fault that reading them meets. It is a grid exactly
/// if the lines are the text of one.
pub fn parse_lines(lines: &Vec<Vec<char>>) -> (result: Result<Levels, ParseLevelError>)
    ensures
        match result {
            Ok(levels) => parse_rows(line_views(lines@)) == Ok::<Grid, ParseLevelError>(levels@)
                && levels.wf(),
            Err(fault) => parse_rows(line_views(lines@)) == Err::<Grid, ParseLevelError>(fault),
        },
        result is Ok <==> exists|width: nat| is_grid_text(line_views(lines@), width),
{
    let result = scan_lines(lines);
    proof {
        let rows = line_views(lines@);
        if parse_rows(rows) is Ok {
            let width = lemma_parsed(rows);
        }
        assert forall|width: nat| is_grid_text(rows, width) implies parse_rows(rows) is Ok by {
            lemma_parses(rows, width);
        }
    }
    result
}

/// Scans the lines tile by tile and then checks how they end.
fn scan_lines(lines: &Vec<Vec<char>>) -> (result: Result<Levels, ParseLevelError>)
    ensures
        match result {
            Ok(levels) => parse_rows(line_views(lines@)) == Ok::<Grid, ParseLevelError>(levels@)
                && levels.wf(),
            Err(fault) => parse_rows(line_views(lines@)) == Err::<Grid, ParseLevelError>(fault),
        },
{
    if lines.len() != Levels::LEVEL_HEIGHT {
        return Err(ParseLevelError::InvalidHeight);
    }
    let ghost rows = line_views(lines@);
    let mut tiles: Vec<bool> = Vec::new();
    let mut limited_gem: Option<usize> = None;
    let mut full_gem: Option<usize> = None;
    let mut column: usize = 0;

    loop
        invariant
            lines.len() == 11,
            rows == line_views(lines@),
            column <= rows[0].len(),
            tiles.len() == column * 11,
            gathered(rows, tiles@.len(), tiles@, index_view(limited_gem), index_view(full_gem)),
            open_through(rows, column as nat),
        decreases rows[0].len() - column,
    {
        let mut remaining: usize = Levels::LEVEL_HEIGHT;
        while remaining > 0
            invariant
                lines.len() == 11,
                rows == line_views(lines@),
                remaining <= 11,
                column <= rows[0].len(),
                remaining == 0 ==> column < rows[0].len(),
                tiles.len() == column * 11 + (11 - remaining),
                gathered(rows, tiles@.len(), tiles@, index_view(limited_gem), index_view(full_gem)),
                open_through(rows, column as nat),
            decreases remaining,
        {
            let i = remaining - 1;
            let line = &lines[i];
            let ghost n = tiles@.len();
            let ghost gathered_tiles = tiles@;
            let ghost limited_before = index_view(limited_gem);
            let ghost full_before = index_view(full_gem);
            assert(cell_line(n) == i && cell_column(n) == column && n / 11 == column);
            assert(rows[i as int] == line@);
            if column >= line.len() {
                proof {
                    assert(cell_char(rows, n) is None);
                    lemma_fails_at(rows, n, gathered_tiles, limited_before, full_before);
                }
                return Err(ParseLevelError::LineEndsEarly(i));
            }
            let character = line[column];
            assert(cell_char(rows, n) == Some(character));

            match read_tile(character, tiles.len(), &mut limited_gem, &mut full_gem) {
                Ok(tile) => {
                    proof {
                        lemma_gathers(
                            rows,
                            n,
                            gathered_tiles,
                            limited_before,
                            full_before,
                            character,
                        );
                    }
                    tiles.push(tile);
                },
                Err(fault) => {
                    proof {
                        if character == 'e' || character == 'E' {
                            lemma_duplicate(
                                rows,
                                n,
                                gathered_tiles,
                                limited_before,
                                full_before,
                                character,
                            );
                        }
                        lemma_fails_at(rows, n, gathered_tiles, limited_before, full_before);
                    }
                    return Err(fault);
                },
            }
            remaining -= 1;
        }

        column += 1;

        if column < lines[0].len() && lines[0][column] == '|' {
            proof {
                assert(rows[0] == lines[0]@);
                lemma_succeeds(
                    rows,
                    column as nat,
                    tiles@,
                    index_view(limited_gem),
                    index_view(full_gem),
                );
            }
            match check_endings(lines, column) {
                Ok(_) => {},
                Err(fault) => {
                    return Err(fault);
                },
            }

            if column % (Levels::LEVEL_WIDTH - 1) != 0 {
                return Err(ParseLevelError::InvalidWidth);
            }
            let num_levels = column / (Levels::LEVEL_WIDTH - 1);
            proof {
                lemma_level_sizes(num_levels as nat);
            }

            return Ok(
                Levels { tiles, num_levels, level_index: 0, x_offset: 0, limited_gem, full_gem },
            );
        }
        proof {
            assert(rows[0] == lines[0]@);
            assert(!closes_at(rows, column as nat));
        }
    }
}

impl Levels {
    /// Reads a grid from its text form.
    ///
    /// The text must be `LEVEL_HEIGHT` lines, the top row first. Each holds
    /// one character for every column, a space for a `false` tile, `x` for a
    /// `true` one, `e` for the limited gem and `E` for the full gem, both on
    /// `false` tiles, and then a `|`. The result is that grid with its first
    /// level active, or the first fault met while reading.
    pub fn from_str(s: &str) -> (result: Result<Self, ParseLevelError>)
        ensures
            match result {
                Ok(levels) => parse_text(s@) == Ok::<Grid, ParseLevelError>(levels@)
                    && levels.wf(),
                Err(fault) => parse_text(s@) == Err::<Grid, ParseLevelError>(fault),
            },
            result is Ok <==> exists|width: nat| is_grid_text(lines_of(s@), width),
    {
        let chars = chars_of(s);
        let lines = split_lines(&chars);
        parse_lines(&lines)
    }
}

/// Whether `c` stands for a tile.
pub open spec fn is_tile_char(c: char) -> bool {
    c == ' ' || c == 'x' || c == 'e' || c == 'E'
}

/// Whether no two of the first `end` characters of the scan are both `gem`.
pub open spec fn gem_once(rows: Seq<Seq<char>>, end: nat, gem: char) -> bool {
    forall|m: nat, n: nat|
        m < n < end && #[trigger] cell_char(rows, m) == Some(gem) ==> #[trigger] cell_char(rows, n)
            != Some(gem)
}

/// Whether the lines are the text of a grid of `width` columns: eleven lines
/// of `width` tile characters and a `|`, a whole number of levels wide and at
/// least one, with each gem at most once.
pub open spec fn is_grid_text(rows: Seq<Seq<char>>, width: nat) -> bool {
    &&& rows.len() == 11
    &&& width >= 1
    &&& width % 14 == 0
    &&& forall|i: int|
        0 <= i < 11 ==> (#[trigger] rows[i]).len() == width + 1 && rows[i][width as int] == '|'
    &&& forall|i: int, k: int|
        0 <= i < 11 && 0 <= k < width ==> is_tile_char(#[trigger] rows[i][k])
    &&& gem_once(rows, width * 11, 'e')
    &&& gem_once(rows, width * 11, 'E')
}

/// Where the scan ends, it can end, and nowhere before.
proof fn lemma_first_stop_found(rows: Seq<Seq<char>>, from: nat)
    requires
        rows.len() == 11,
        from <= scan_limit(rows),
    ensures
        from <= first_stop(rows, from) <= scan_limit(rows),
        stops_at(rows, first_stop(rows, from)),
        forall|m: nat| from <= m < first_stop(rows, from) ==> !#[trigger] stops_at(rows, m),
    decreases scan_limit(rows) - from,
{
    let limit = scan_limit(rows);
    assert(cell_line(limit) == 0 && cell_column(limit) == rows[0].len());
    assert(cell_char(rows, limit) is None);
    assert(stops_at(rows, limit));
    if from < limit && !stops_at(rows, from) {
        lemma_first_stop_found(rows, from + 1);
    }
}

/// If no line's end is reported from `from` down, none of their ends is wrong.
proof fn lemma_no_ending_fault(rows: Seq<Seq<char>>, width: nat, from: nat)
    requires
        first_ending_fault(rows, width, from) is None,
    ensures
        forall|i: nat| from <= i < 11 ==> #[trigger] ending_fault(rows, width, i) is None,
    decreases 11 - from,
{
    if from < 11 {
        lemma_no_ending_fault(rows, width, from + 1);
    }
}

/// The text of a grid is read as the grid that it stands for.
pub proof fn lemma_parses(rows: Seq<Seq<char>>, width: nat)
    requires
        is_grid_text(rows, width),
    ensures
        parse_rows(rows) == Ok::<Grid, ParseLevelError>(decoded(rows, width)),
{
    let end = width * 11;
    let grid = decoded(rows, width);
    assert forall|n: nat| n < end implies (#[trigger] cell_char(rows, n)) is Some && is_tile_char(
        cell_char(rows, n)->0,
    ) by {
        let i = cell_line(n) as int;
        let k = cell_column(n) as int;
        assert(rows[i].len() == width + 1);
        assert(is_tile_char(rows[i][k]));
    }
    assert forall|n: nat| n < end implies #[trigger] cell_fault(rows, n) is None by {
        let c = cell_char(rows, n)->0;
        assert(is_tile_char(c));
        if c == 'e' || c == 'E' {
            if gem_seen(rows, n, c) {
                let m = choose|m: nat| m < n && #[trigger] cell_char(rows, m) == Some(c);
                assert(cell_char(rows, n) != Some(c));
            }
        }
    }
    assert forall|m: nat| m < end implies (#[trigger] cell_char(rows, m) == Some('e')
        <==> grid.limited_gem == Some(m)) by {
        if cell_char(rows, m) == Some('e') {
            let c = grid.limited_gem->0;
            assert(cell_char(rows, c) == Some('e'));
            if c < m {
                assert(cell_char(rows, m) != Some('e'));
            }
            if m < c {
                assert(cell_char(rows, c) != Some('e'));
            }
        }
    }
    assert forall|m: nat| m < end implies (#[trigger] cell_char(rows, m) == Some('E')
        <==> grid.full_gem == Some(m)) by {
        if cell_char(rows, m) == Some('E') {
            let c = grid.full_gem->0;
            assert(cell_char(rows, c) == Some('E'));
            if c < m {
                assert(cell_char(rows, m) != Some('E'));
            }
            if m < c {
                assert(cell_char(rows, c) != Some('E'));
            }
        }
    }
    assert(gathered(rows, end, grid.tiles, grid.limited_gem, grid.full_gem));
    assert forall|c: nat| 1 <= c <= width - 1 implies !#[trigger] closes_at(rows, c) by {
        assert(is_tile_char(rows[0][c as int]));
    }
    assert(rows[0].len() == width + 1);
    assert(closes_at(rows, width));
    assert forall|i: nat| i < 11 implies #[trigger] ending_fault(rows, width, i) is None by {
        assert(rows[i as int].len() == width + 1);
    }
    lemma_first_ending_fault(rows, width, 0, 11);
    lemma_succeeds(rows, width, grid.tiles, grid.limited_gem, grid.full_gem);
}

/// What is read as a grid is the text of a grid, and of the grid that it is
/// read as.
pub proof fn lemma_parsed(rows: Seq<Seq<char>>) -> (width: nat)
    requires
        parse_rows(rows) is Ok,
    ensures
        is_grid_text(rows, width),
        parse_rows(rows) == Ok::<Grid, ParseLevelError>(decoded(rows, width)),
{
    let stop = first_stop(rows, 0);
    let width = (stop + 1) / 11;
    lemma_first_stop_found(rows, 0);
    assert(cell_fault(rows, stop) is None);
    assert((stop + 1) % 11 == 0 && closes_at(rows, width));
    assert(stop + 1 == width * 11);
    lemma_no_ending_fault(rows, width, 0);
    assert forall|n: nat| n < width * 11 implies #[trigger] cell_fault(rows, n) is None by {
        if n < stop {
            assert(!stops_at(rows, n));
        }
    }
    assert forall|i: int| 0 <= i < 11 implies (#[trigger] rows[i]).len() == width + 1
        && rows[i][width as int] == '|' by {
        assert(ending_fault(rows, width, i as nat) is None);
    }
    assert forall|i: int, k: int| 0 <= i < 11 && 0 <= k < width implies is_tile_char(
        #[trigger] rows[i][k],
    ) by {
        let n = (k * 11 + (10 - i)) as nat;
        assert(cell_line(n) == i && cell_column(n) == k);
        assert(cell_fault(rows, n) is None);
        assert(cell_char(rows, n) == Some(rows[i][k]));
    }
    assert forall|m: nat, n: nat|
        m < n < width * 11 && #[trigger] cell_char(rows, m) == Some(
            'e',
        ) implies #[trigger] cell_char(rows, n) != Some('e') by {
        if cell_char(rows, n) == Some('e') {
            assert(gem_seen(rows, n, 'e'));
            assert(cell_fault(rows, n) is None);
        }
    }
    assert forall|m: nat, n: nat|
        m < n < width * 11 && #[trigger] cell_char(rows, m) == Some(
            'E',
        ) implies #[trigger] cell_char(rows, n) != Some('E') by {
        if cell_char(rows, n) == Some('E') {
            assert(gem_seen(rows, n, 'E'));
            assert(cell_fault(rows, n) is None);
        }
    }
    width
}

/// The character that stands for tile `n`: the gems first, then the tile.
pub open spec fn tile_char(grid: Grid, n: nat) -> char {
    if grid.limited_gem == Some(n) {
        'e'
    } else if grid.full_gem == Some(n) {
        'E'
    } else if grid.tiles[n as int] {
        'x'
    } else {
        ' '
    }
}

/// The line for row `row`: the characters of its tiles through all levels,
/// and a `|`.
pub open spec fn row_text(grid: Grid, row: nat) -> Seq<char> {
    Seq::new(
        grid.num_levels * 14 + 1,
        |column: int|
            if column < grid.num_levels * 14 {
                tile_char(grid, (column * 11 + row) as nat)
            } else {
                '|'
            },
    )
}

/// The first `count` lines of the text of a grid, from the top row down, each
/// with a line feed after it.
pub open spec fn rendered_rows(grid: Grid, count: nat) -> Seq<char>
    decreases count,
{
    if count == 0 {
        Seq::empty()
    } else {
        rendered_rows(grid, (count - 1) as nat) + row_text(grid, (11 - count) as nat) + seq!['\n']
    }
}

/// The text of a grid: its `LEVEL_HEIGHT` rows from the top one down.
pub open spec fn rendered(grid: Grid) -> Seq<char> {
    rendered_rows(grid, 11)
}

impl Levels {
    /// Writes the grid as text, in the form that `from_str` reads.
    pub fn to_string(&self) -> (text: String)
        requires
            self@.shaped(),
        ensures
            text@ == rendered(self@),
    {
        proof {
            lemma_level_sizes(self.num_levels as nat);
            reveal_strlit("e");
            reveal_strlit("E");
            reveal_strlit("x");
            reveal_strlit(" ");
            reveal_strlit("|\n");
            assert(rendered_rows(self@, 0) =~= Seq::<char>::empty());
            assert(self.tiles.len() == 154 * self.num_levels);
        }
        let mut text = String::new();
        let width = (Self::LEVEL_WIDTH - 1) * self.num_levels;
        let mut line: usize = 0;
        while line < Self::LEVEL_HEIGHT
            invariant
                line <= 11,
                width == self.num_levels * 14,
                self.tiles.len() == width * 11,
                text@ == rendered_rows(self@, line as nat),
                "e"@ == seq!['e'],
                "E"@ == seq!['E'],
                "x"@ == seq!['x'],
                " "@ == seq![' '],
                "|\n"@ == seq!['|', '\n'],
            decreases 11 - line,
        {
            let y = Self::LEVEL_HEIGHT - 1 - line;
            let ghost above = text@;
            let mut x: usize = 0;
            while x < width
                invariant
                    x <= width,
                    y < 11,
                    width == self.num_levels * 14,
                    self.tiles.len() == width * 11,
                    text@ == above + row_text(self@, y as nat).take(x as int),
                    "e"@ == seq!['e'],
                    "E"@ == seq!['E'],
                    "x"@ == seq!['x'],
                    " "@ == seq![' '],
                decreases width - x,
            {
                let tile_index = x * Self::LEVEL_HEIGHT + y;
                let ghost before = text@;
                if self.limited_gem == Some(tile_index) {
                    text.append("e");
                } else if self.full_gem == Some(tile_index) {
                    text.append("E");
                } else if self.tiles[tile_index] {
                    text.append("x");
                } else {
                    text.append(" ");
                }
                assert(text@ == before + seq![tile_char(self@, tile_index as nat)]);
                x += 1;
                assert(text@ =~= above + row_text(self@, y as nat).take(x as int));
            }
            text.append("|\n");
            line += 1;
            assert(text@ =~= rendered_rows(self@, line as nat));
        }
        text
    }
}

/// Scanning on through characters that are no line feeds changes nothing.
proof fn lemma_scan_skips(text: Seq<char>, start: int, at: int, to: int)
    requires
        0 <= start <= at <= to <= text.len(),
        forall|i: int| at <= i < to ==> text[i] != '\n',
    ensures
        lines_scan(text, start, at) == lines_scan(text, start, to),
    decreases to - at,
{
    if at < to {
        lemma_scan_skips(text, start, at + 1, to);
    }
}

/// A text that ends its last line, with one more line after it, has the lines
/// of the text and then that line.
proof fn lemma_scan_appended(text: Seq<char>, line: Seq<char>, start: int, at: int)
    requires
        0 <= start <= at <= text.len(),
        text.len() > 0 ==> text.last() == '\n',
        at == text.len() ==> start == at,
        forall|i: int| 0 <= i < line.len() ==> line[i] != '\n',
        without_return(line) == line,
    ensures
        lines_scan(text + line + seq!['\n'], start, at) == lines_scan(text, start, at) + seq![line],
    decreases text.len() - at,
{
    let whole = text + line + seq!['\n'];
    let end = (text.len() + line.len()) as int;
    if at == text.len() {
        lemma_scan_skips(whole, start, at, end);
        assert(whole[end] == '\n');
        assert(whole.subrange(start, end) =~= line);
        assert(lines_scan(whole, end + 1, end + 1) =~= Seq::<Seq<char>>::empty());
        assert(lines_scan(text, start, at) =~= Seq::<Seq<char>>::empty());
        assert(lines_scan(whole, start, end) =~= seq![line]);
        assert(lines_scan(whole, start, at) =~= lines_scan(text, start, at) + seq![line]);
    } else {
        assert(whole[at] == text[at]);
        if text[at] == '\n' {
            lemma_scan_appended(text, line, at + 1, at + 1);
            assert(whole.subrange(start, at) =~= text.subrange(start, at));
            assert(lines_scan(whole, start, at) =~= lines_scan(text, start, at) + seq![line]);
        } else {
            lemma_scan_appended(text, line, start, at + 1);
        }
    }
}

/// The lines of the first `count` lines of the text of a grid are its rows
/// from the top one down.
proof fn lemma_rendered_lines(grid: Grid, count: nat)
    requires
        count <= 11,
    ensures
        lines_of(rendered_rows(grid, count)) == Seq::new(
            count,
            |i: int| row_text(grid, (10 - i) as nat),
        ),
        rendered_rows(grid, count).len() > 0 ==> rendered_rows(grid, count).last() == '\n',
    decreases count,
{
    if count == 0 {
        assert(lines_of(rendered_rows(grid, count)) =~= Seq::new(
            count,
            |i: int| row_text(grid, (10 - i) as nat),
        ));
    } else {
        let above = rendered_rows(grid, (count - 1) as nat);
        let line = row_text(grid, (11 - count) as nat);
        lemma_rendered_lines(grid, (count - 1) as nat);
        assert(line.last() == '|');
        assert forall|i: int| 0 <= i < line.len() implies line[i] != '\n' by {
            let c = tile_char(grid, (i * 11 + (11 - count)) as nat);
            assert(c == 'e' || c == 'E' || c == 'x' || c == ' ');
        }
        lemma_scan_appended(above, line, 0, 0);
        assert(lines_of(rendered_rows(grid, count)) =~= Seq::new(
            count,
            |i: int| row_text(grid, (10 - i) as nat),
        ));
    }
}

/// Reading the text of a grid gives the grid back: its tiles, its gems and the
/// number of its levels, with the first level active.
///
/// This holds of a grid with at least one level whose gems, where it has
/// them, mark two different tiles that are `false`. The text has no place for
/// a gem that marks no tile, shows only the limited gem where both mark one
/// tile, and reads every gem as standing on a `false` tile.
pub proof fn lemma_parse_rendered(grid: Grid)
    requires
        grid.shaped(),
        grid.num_levels >= 1,
        grid.limited_gem is Some ==> grid.limited_gem->0 < grid.tiles.len()
            && !grid.tiles[grid.limited_gem->0 as int],
        grid.full_gem is Some ==> grid.full_gem->0 < grid.tiles.len()
            && !grid.tiles[grid.full_gem->0 as int],
        grid.limited_gem is Some ==> grid.limited_gem != grid.full_gem,
    ensures
        parse_text(rendered(grid)) == Ok::<Grid, ParseLevelError>(
            Grid { level_index: 0, x_offset: 0, ..grid },
        ),
{
    lemma_level_sizes(grid.num_levels);
    lemma_rendered_lines(grid, 11);
    let rows = lines_of(rendered(grid));
    let width = grid.num_levels * 14;
    let end = width * 11;
    assert forall|i: int| 0 <= i < 11 implies #[trigger] rows[i] == row_text(
        grid,
        (10 - i) as nat,
    ) by {}
    assert(end == grid.tiles.len());
    assert forall|n: nat| n < end implies #[trigger] cell_char(rows, n) == Some(
        tile_char(grid, n),
    ) by {
        assert(rows[cell_line(n) as int] == row_text(grid, (n % 11) as nat));
        assert(cell_column(n) * 11 + n % 11 == n);
    }
    assert forall|i: int, k: int| 0 <= i < 11 && 0 <= k < width implies is_tile_char(
        #[trigger] rows[i][k],
    ) by {
        assert(rows[i] == row_text(grid, (10 - i) as nat));
        assert(rows[i][k] == tile_char(grid, (k * 11 + (10 - i)) as nat));
    }
    assert(gem_once(rows, end, 'e')) by {
        assert forall|m: nat, n: nat|
            m < n < end && #[trigger] cell_char(rows, m) == Some(
                'e',
            ) implies #[trigger] cell_char(rows, n) != Some('e') by {
            assert(tile_char(grid, m) == 'e');
        }
    }
    assert(gem_once(rows, end, 'E')) by {
        assert forall|m: nat, n: nat|
            m < n < end && #[trigger] cell_char(rows, m) == Some(
                'E',
            ) implies #[trigger] cell_char(rows, n) != Some('E') by {
            assert(tile_char(grid, m) == 'E');
        }
    }
    assert(is_grid_text(rows, width));
    lemma_parses(rows, width);
    assert forall|m: nat| m < end implies (#[trigger] cell_char(rows, m) == Some('e')
        <==> grid.limited_gem == Some(m)) by {
        assert(cell_char(rows, m) == Some(tile_char(grid, m)));
    }
    assert forall|m: nat| m < end implies (#[trigger] cell_char(rows, m) == Some('E')
        <==> grid.full_gem == Some(m)) by {
        assert(cell_char(rows, m) == Some(tile_char(grid, m)));
    }
    lemma_gem_position(rows, end, 'e', grid.limited_gem);
    lemma_gem_position(rows, end, 'E', grid.full_gem);
    assert(decoded(rows, width).tiles =~= grid.tiles) by {
        assert forall|n: int| 0 <= n < end implies decoded(rows, width).tiles[n]
            == grid.tiles[n] by {
            assert(cell_char(rows, n as nat) == Some(tile_char(grid, n as nat)));
        }
    }
    assert(width / 14 == grid.num_levels);
    assert(decoded(rows, width) == Grid { level_index: 0, x_offset: 0, ..grid });
}

/// Writing the grid that a text was read as gives the lines of the text
/// back. Its gems, where it has them, mark two different tiles of the grid
/// that are `false`.
pub proof fn lemma_render_parsed(rows: Seq<Seq<char>>, width: nat)
    requires
        is_grid_text(rows, width),
    ensures
        lines_of(rendered(decoded(rows, width))) == rows,
        decoded(rows, width).shaped(),
        decoded(rows, width).num_levels >= 1,
        ({
            let grid = decoded(rows, width);
            &&& grid.limited_gem is Some ==> grid.limited_gem->0 < grid.tiles.len()
                && !grid.tiles[grid.limited_gem->0 as int]
            &&& grid.full_gem is Some ==> grid.full_gem->0 < grid.tiles.len()
                && !grid.tiles[grid.full_gem->0 as int]
            &&& grid.limited_gem is Some ==> grid.limited_gem != grid.full_gem
        }),
{
    let grid = decoded(rows, width);
    let end = width * 11;
    lemma_level_sizes(grid.num_levels);
    lemma_rendered_lines(grid, 11);
    assert(grid.num_levels * 14 == width);
    assert forall|n: nat| n < end implies (#[trigger] cell_char(rows, n)) is Some && is_tile_char(
        cell_char(rows, n)->0,
    ) by {
        let i = cell_line(n) as int;
        let k = cell_column(n) as int;
        assert(rows[i].len() == width + 1);
        assert(is_tile_char(rows[i][k]));
    }
    if grid.limited_gem is Some {
        assert(cell_char(rows, grid.limited_gem->0) == Some('e'));
    }
    if grid.full_gem is Some {
        assert(cell_char(rows, grid.full_gem->0) == Some('E'));
    }
    assert forall|n: nat| n < end implies #[trigger] cell_char(rows, n) == Some(
        tile_char(grid, n),
    ) by {
        let c = cell_char(rows, n)->0;
        assert(is_tile_char(c));
        if c == 'e' {
            let g = grid.limited_gem->0;
            if g < n {
                assert(cell_char(rows, n) != Some('e'));
            }
            if n < g {
                assert(cell_char(rows, g) != Some('e'));
            }
        } else if c == 'E' {
            let g = grid.full_gem->0;
            if g < n {
                assert(cell_char(rows, n) != Some('E'));
            }
            if n < g {
                assert(cell_char(rows, g) != Some('E'));
            }
        }
    }
    let lines = lines_of(rendered(grid));
    assert forall|i: int| 0 <= i < 11 implies #[trigger] lines[i] == rows[i] by {
        let line = row_text(grid, (10 - i) as nat);
        assert(lines[i] == line);
        assert(rows[i].len() == width + 1);
        assert forall|k: int| 0 <= k < width + 1 implies line[k] == rows[i][k] by {
            if k < width {
                let n = (k * 11 + (10 - i)) as nat;
                assert(cell_line(n) == i && cell_column(n) == k);
                assert(cell_char(rows, n) == Some(tile_char(grid, n)));
            }
        }
        assert(line =~= rows[i]);
    }
    assert(lines =~= rows);
}

} // verus!
