//! Reading the points of an instance from text: one point per line, its two
//! coordinates first on the line, with white space between them.

use crate::decimal::{parse, Dec};
use crate::solver::Node;
use crate::Error;
use vstd::prelude::*;
use vstd::slice::slice_subrange;

verus! {

/// The points of an instance, in the order in which they were read.
#[derive(Debug)]
pub struct TspData {
    pub nodes: Vec<Node>,
}

/// Whether `c` is white space: one of the characters that Unicode gives the
/// property `White_Space`.
pub open spec fn is_whitespace(c: char) -> bool {
    let code = c as u32;
    ||| 0x09 <= code <= 0x0D
    ||| code == 0x20
    ||| code == 0x85
    ||| code == 0xA0
    ||| code == 0x1680
    ||| 0x2000 <= code <= 0x200A
    ||| code == 0x2028
    ||| code == 0x2029
    ||| code == 0x202F
    ||| code == 0x205F
    ||| code == 0x3000
}

/// The first position at or after `from` that holds no white space, or the
/// length of `line` where there is none.
pub open spec fn token_start(line: Seq<char>, from: int) -> int
    decreases line.len() - from,
{
    if from < 0 || from >= line.len() {
        line.len() as int
    } else if !is_whitespace(line[from]) {
        from
    } else {
        token_start(line, from + 1)
    }
}

/// The first position at or after `from` that holds white space, or the
/// length of `line` where there is none.
pub open spec fn token_end(line: Seq<char>, from: int) -> int
    decreases line.len() - from,
{
    if from < 0 || from >= line.len() {
        line.len() as int
    } else if is_whitespace(line[from]) {
        from
    } else {
        token_end(line, from + 1)
    }
}

/// The first position at or after `from` that holds a line feed, or the
/// length of `text` where there is none.
pub open spec fn line_end(text: Seq<char>, from: int) -> int
    decreases text.len() - from,
{
    if from < 0 || from >= text.len() {
        text.len() as int
    } else if text[from] == '\n' {
        from
    } else {
        line_end(text, from + 1)
    }
}

/// The lines of `text`: what stands between its line feeds, before the first
/// and after the last. A text without a line feed is one line, an empty text
/// one empty line.
pub open spec fn lines(text: Seq<char>) -> Seq<Seq<char>>
    decreases text.len(),
{
    let end = line_end(text, 0);
    if end < 0 || end >= text.len() {
        seq![text]
    } else {
        seq![text.take(end)] + lines(text.skip(end + 1))
    }
}

/// What a coordinate line gives: the point with the number `index` whose
/// coordinates the first two entries of the line spell. A line with fewer
/// than two entries is too short; entries that spell no number cannot be
/// read. What follows the second entry is passed over.
pub open spec fn parsed_line(line: Seq<char>, index: u32) -> Result<Node, Error> {
    let first_start = token_start(line, 0);
    let first_end = token_end(line, first_start);
    let second_start = token_start(line, first_end);
    let second_end = token_end(line, second_start);
    if second_start >= line.len() {
        Err(Error::CoordLineTooShort)
    } else {
        match (
            Dec::spelled_by(line.subrange(first_start, first_end)),
            Dec::spelled_by(line.subrange(second_start, second_end)),
        ) {
            (Some(x), Some(y)) => Ok(Node { index, x, y }),
            _ => Err(Error::UnparsableCoord),
        }
    }
}

/// Whether `outcome` is what the lines of a text give, read from the first
/// line on: the points of all lines, numbered from 1, or the error of the
/// first line that gives one.
pub open spec fn read_from(all: Seq<Seq<char>>, outcome: Result<TspData, Error>) -> bool {
    match outcome {
        Ok(data) => data.nodes@.len() == all.len() && forall|k: int|
            0 <= k < all.len() ==> parsed_line(#[trigger] all[k], (k + 1) as u32) == Ok::<
                Node,
                Error,
            >(data.nodes@[k]),
        Err(error) => exists|k: int|
            0 <= k < all.len() && parsed_line(#[trigger] all[k], (k + 1) as u32) == Err::<
                Node,
                Error,
            >(error) && forall|j: int|
                0 <= j < k ==> parsed_line(#[trigger] all[j], (j + 1) as u32) is Ok,
    }
}

/// Whether `c` is white space.
pub fn is_space(c: char) -> (space: bool)
    ensures
        space == is_whitespace(c),
{
    let code: u32 = c as u32;
    (0x09 <= code && code <= 0x0D) || code == 0x20 || code == 0x85 || code == 0xA0 || code
        == 0x1680 || (0x2000 <= code && code <= 0x200A) || code == 0x2028 || code == 0x2029
        || code == 0x202F || code == 0x205F || code == 0x3000
}

/// The characters of `text`, one by one.
fn characters(text: &str) -> (found: Vec<char>)
    ensures
        found@ == text@,
{
    let mut found: Vec<char> = Vec::new();
    let chars = text.chars();
    for c in it: chars
        invariant
            it.seq() == text@,
            found@ == it.seq().take(it.index() as int),
    {
        found.push(c);
        assert(it.seq().take(it.index() + 1) =~= it.seq().take(it.index() as int).push(c));
    }
    assert(found@ =~= text@);
    found
}

/// Where the entry begins that is looked for from `from` on.
fn find_token_start(line: &[char], from: usize) -> (start: usize)
    requires
        from <= line@.len(),
    ensures
        start == token_start(line@, from as int),
        from <= start <= line@.len(),
{
    let mut at: usize = from;
    while at < line.len() && is_space(line[at])
        invariant
            from <= at <= line@.len(),
            token_start(line@, from as int) == token_start(line@, at as int),
        decreases line@.len() - at,
    {
        at = at + 1;
    }
    at
}

/// Where the entry ends that begins at `from`.
fn find_token_end(line: &[char], from: usize) -> (end: usize)
    requires
        from <= line@.len(),
    ensures
        end == token_end(line@, from as int),
        from <= end <= line@.len(),
{
    let mut at: usize = from;
    while at < line.len() && !is_space(line[at])
        invariant
            from <= at <= line@.len(),
            token_end(line@, from as int) == token_end(line@, at as int),
        decreases line@.len() - at,
    {
        at = at + 1;
    }
    at
}

/// Where the line ends that begins at `from`.
fn find_line_end(text: &[char], from: usize) -> (end: usize)
    requires
        from <= text@.len(),
    ensures
        end == from + line_end(text@.skip(from as int), 0),
        from <= end <= text@.len(),
        end < text@.len() ==> text@[end as int] == '\n',
{
    let ghost rest = text@.skip(from as int);
    let mut at: usize = from;
    while at < text.len() && text[at] != '\n'
        invariant
            from <= at <= text@.len(),
            rest == text@.skip(from as int),
            line_end(rest, 0) == line_end(rest, at - from),
        decreases text@.len() - at,
    {
        assert(rest[at - from] == text@[at as int]);
        at = at + 1;
    }
    proof {
        if at < text.len() {
            assert(rest[at - from] == text@[at as int]);
        }
    }
    at
}

/// Reads the point of one coordinate line, given as characters.
fn parse_line(line: &[char], index: u32) -> (outcome: Result<Node, Error>)
    ensures
        outcome == parsed_line(line@, index),
{
    let first_start = find_token_start(line, 0);
    let first_end = find_token_end(line, first_start);
    let second_start = find_token_start(line, first_end);
    let second_end = find_token_end(line, second_start);
    if second_start >= line.len() {
        return Err(Error::CoordLineTooShort);
    }
    let x = parse(slice_subrange(line, first_start, first_end));
    let y = parse(slice_subrange(line, second_start, second_end));
    match (x, y) {
        (Some(x), Some(y)) => Ok(Node::new(index, x, y)),
        _ => Err(Error::UnparsableCoord),
    }
}

/// Reads the point that a coordinate line gives, and numbers it `index`.
pub fn parse_node_coord_section_line(line: &str, index: u32) -> (outcome: Result<Node, Error>)
    ensures
        outcome == parsed_line(line@, index),
{
    let chars = characters(line);
    parse_line(chars.as_slice(), index)
}

impl TspData {
    /// The instance of the points `nodes`.
    pub fn new(nodes: Vec<Node>) -> (data: TspData)
        ensures
            data.nodes == nodes,
    {
        TspData { nodes }
    }

    /// Reads the points of an instance from `s`, one from each line, and
    /// numbers them from 1. The first line that gives no point decides the
    /// error, and no point is returned then.
    pub fn from_str(s: &str) -> (outcome: Result<TspData, Error>)
        requires
            s@.len() < u32::MAX,
        ensures
            read_from(lines(s@), outcome),
    {
        let text = characters(s);
        let mut nodes: Vec<Node> = Vec::new();
        let mut from: usize = 0;
        let ghost mut done: Seq<Seq<char>> = Seq::empty();
        proof {
            assert(text@.skip(0) =~= text@);
            assert(done + lines(text@) =~= lines(text@));
        }
        loop
            invariant
                text@ == s@,
                text@.len() < u32::MAX,
                from <= text@.len(),
                nodes@.len() == done.len(),
                nodes@.len() <= from,
                lines(text@) == done + lines(text@.skip(from as int)),
                forall|k: int|
                    0 <= k < done.len() ==> parsed_line(#[trigger] done[k], (k + 1) as u32) == Ok::<
                        Node,
                        Error,
                    >(nodes@[k]),
            decreases text@.len() - from,
        {
            let end = find_line_end(text.as_slice(), from);
            let ghost rest = text@.skip(from as int);
            let ghost line = text@.subrange(from as int, end as int);
            let index: u32 = (nodes.len() + 1) as u32;
            proof {
                assert(rest.take(end - from) =~= line);
                if end >= text@.len() {
                    assert(rest.take(end - from) =~= rest);
                    assert(lines(rest) == seq![line]);
                } else {
                    assert(rest.skip(end - from + 1) =~= text@.skip(end + 1));
                    assert(lines(rest) == seq![line] + lines(text@.skip(end + 1)));
                }
            }
            match parse_line(slice_subrange(text.as_slice(), from, end), index) {
                Ok(node) => {
                    nodes.push(node);
                    proof {
                        done = done.push(line);
                    }
                },
                Err(error) => {
                    proof {
                        let all = lines(text@);
                        let k = done.len() as int;
                        assert(all[k] == line);
                        assert forall|j: int| 0 <= j < k implies parsed_line(
                            #[trigger] all[j],
                            (j + 1) as u32,
                        ) is Ok by {
                            assert(all[j] == done[j]);
                        }
                    }
                    return Err(error);
                },
            }
            if end >= text.len() {
                proof {
                    assert(lines(text@) =~= done);
                }
                return Ok(TspData::new(nodes));
            }
            proof {
                assert((done.drop_last() + (seq![line] + lines(text@.skip(end + 1)))) =~= (done
                    + lines(text@.skip(end + 1))));
            }
            from = end + 1;
        }
    }
}

/// Reads an instance from what its file held, or from `None` where the file
/// could not be found or read: that is an error of its own, and else the text
/// decides as in [`TspData::from_str`].
pub fn read(file_content: Option<&str>) -> (outcome: Result<TspData, Error>)
    requires
        file_content matches Some(text) ==> text@.len() < u32::MAX,
    ensures
        file_content matches Some(text) ==> read_from(lines(text@), outcome),
        file_content is None ==> (outcome matches Err(error) && error == Error::InstanceNotFound),
{
    match file_content {
        Some(content) => TspData::from_str(content),
        None => Err(Error::InstanceNotFound),
    }
}

} // verus!
