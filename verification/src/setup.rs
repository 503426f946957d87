//! Board construction from seed text.
//!
//! The seed input is a sequence of text lines, each `x;y` or `x;y;z`
//! (`z` defaults to 0 when omitted).  Each well-formed record marks
//! exactly one cell alive-fresh at board-creation time; all other cells
//! start dead.  A malformed record — wrong field count, or a field that
//! is not an unsigned decimal number — is skipped; the host may warn
//! about it.  A well-formed record whose coordinate falls off the board
//! is a fatal configuration error: no board is produced.

use vstd::prelude::*;

use crate::config::MAX_DIM;
use crate::types::alive_fresh_cell;
use crate::types::rest_cell;
use crate::types::Adjacency;
use crate::types::Board;

verus! {

/// Line feed, the record separator.
pub const LF: u8 = 10;

/// Carriage return, tolerated at the end of a line.
pub const CR: u8 = 13;

/// Semicolon, the field separator inside a record.
pub const SEMI: u8 = 59;

/// Whether a byte is an ASCII decimal digit.
pub open spec fn is_digit(b: u8) -> bool {
    48 <= b <= 57
}

/// The value of one digit byte.
pub open spec fn digit_val(b: u8) -> nat {
    (b - 48) as nat
}

/// Whether a field is a non-empty run of decimal digits.
pub open spec fn is_number(s: Seq<u8>) -> bool {
    s.len() > 0 && forall|i: int| 0 <= i < s.len() ==> is_digit(#[trigger] s[i])
}

/// The decimal value of a run of digits.
pub open spec fn dec_val(s: Seq<u8>) -> nat
    decreases s.len(),
{
    if s.len() == 0 {
        0
    } else {
        dec_val(s.drop_last()) * 10 + digit_val(s.last())
    }
}

/// The fields obtained by cutting `s` at every occurrence of `sep`.
/// There is always at least one field; empty fields are kept.
pub open spec fn split_on(s: Seq<u8>, sep: u8) -> Seq<Seq<u8>>
    decreases s.len(),
{
    if s.len() == 0 {
        seq![Seq::<u8>::empty()]
    } else if s[0] == sep {
        seq![Seq::<u8>::empty()] + split_on(s.drop_first(), sep)
    } else {
        let rest = split_on(s.drop_first(), sep);
        rest.update(0, seq![s[0]] + rest[0])
    }
}

/// A line with a trailing carriage return has it removed.
pub open spec fn strip_cr(line: Seq<u8>) -> Seq<u8> {
    if line.len() > 0 && line.last() == CR {
        line.drop_last()
    } else {
        line
    }
}

/// The lines of the seed text: cut at every line feed, drop the empty
/// segment a trailing line feed leaves, and tolerate a carriage return
/// at the end of each line.
pub open spec fn spec_lines(s: Seq<u8>) -> Seq<Seq<u8>> {
    let raw = split_on(s, LF);
    let kept = if raw.last().len() == 0 {
        raw.drop_last()
    } else {
        raw
    };
    kept.map_values(|l: Seq<u8>| strip_cr(l))
}

/// Whether a field parses as an unsigned decimal coordinate.
pub open spec fn valid_field(f: Seq<u8>) -> bool {
    is_number(f) && dec_val(f) <= usize::MAX
}

/// The coordinate a record denotes: two or three decimal fields
/// separated by semicolons, the third defaulting to 0.  `None` for a
/// malformed record.
pub open spec fn line_coord(line: Seq<u8>) -> Option<(nat, nat, nat)> {
    let fs = split_on(line, SEMI);
    if 2 <= fs.len() <= 3 && (forall|i: int| 0 <= i < fs.len() ==> valid_field(#[trigger] fs[i])) {
        Some(
            (
                dec_val(fs[0]),
                dec_val(fs[1]),
                if fs.len() == 3 {
                    dec_val(fs[2])
                } else {
                    0
                },
            ),
        )
    } else {
        None
    }
}

/// Whether a coordinate from the seed text marks `(x, y, z)` alive.
pub open spec fn spec_seeded(s: Seq<u8>, x: nat, y: nat, z: nat) -> bool {
    exists|i: int|
        0 <= i < spec_lines(s).len() && line_coord(#[trigger] spec_lines(s)[i]) == Some((x, y, z))
}

/// Whether a record is well formed but falls off a board of the given
/// extents.
pub open spec fn line_out_of_range(line: Seq<u8>, width: usize, height: usize, depth: usize) -> bool {
    match line_coord(line) {
        Some((x, y, z)) => !(x < width && y < height && z < depth),
        None => false,
    }
}

/// Whether any record of the seed text falls off the board.
pub open spec fn has_out_of_range(s: Seq<u8>, width: usize, height: usize, depth: usize) -> bool {
    exists|i: int|
        0 <= i < spec_lines(s).len() && line_out_of_range(
            #[trigger] spec_lines(s)[i],
            width,
            height,
            depth,
        )
}

/// The fatal seed-input error: a well-formed record named a coordinate
/// that is not on the board.
#[derive(Clone, Copy, PartialEq, Eq, Structural, Debug)]
pub enum SeedError {
    OutOfRange { x: usize, y: usize, z: usize },
}

/// Splitting always yields at least one field.
proof fn lemma_split_len(s: Seq<u8>, sep: u8)
    ensures
        split_on(s, sep).len() >= 1,
    decreases s.len(),
{
    if s.len() > 0 {
        lemma_split_len(s.drop_first(), sep);
    }
}

/// A separator-free run is a single field.
proof fn lemma_split_sep_free(pre: Seq<u8>, sep: u8)
    requires
        forall|t: int| 0 <= t < pre.len() ==> pre[t] != sep,
    ensures
        split_on(pre, sep) == seq![pre],
    decreases pre.len(),
{
    if pre.len() == 0 {
        assert(pre =~= Seq::<u8>::empty());
        assert(split_on(pre, sep) =~= seq![pre]);
    } else {
        lemma_split_sep_free(pre.drop_first(), sep);
        assert(seq![pre[0]] + pre.drop_first() =~= pre);
        assert(split_on(pre, sep) =~= seq![pre]);
    }
}

/// Cutting at the first separator: a separator-free prefix becomes one
/// field, and the rest splits on its own.
proof fn lemma_split_at_sep(pre: Seq<u8>, rest: Seq<u8>, sep: u8)
    requires
        forall|t: int| 0 <= t < pre.len() ==> pre[t] != sep,
    ensures
        split_on(pre + seq![sep] + rest, sep) == seq![pre] + split_on(rest, sep),
    decreases pre.len(),
{
    let s = pre + seq![sep] + rest;
    lemma_split_len(rest, sep);
    if pre.len() == 0 {
        assert(s[0] == sep);
        assert(s.drop_first() =~= rest);
        assert(pre =~= Seq::<u8>::empty());
        assert(split_on(s, sep) =~= seq![pre] + split_on(rest, sep));
    } else {
        assert(s[0] == pre[0]);
        assert(s.drop_first() =~= pre.drop_first() + seq![sep] + rest);
        lemma_split_at_sep(pre.drop_first(), rest, sep);
        let r2 = split_on(s.drop_first(), sep);
        assert(r2[0] == pre.drop_first());
        assert(seq![s[0]] + r2[0] =~= pre);
        assert(split_on(s, sep) =~= seq![pre] + split_on(rest, sep));
    }
}

/// The decimal value of a prefix never exceeds the value of the whole
/// run.
proof fn lemma_dec_val_take_le(s: Seq<u8>, j: int)
    requires
        0 <= j <= s.len(),
    ensures
        dec_val(s.take(j)) <= dec_val(s),
    decreases s.len() - j,
{
    if j == s.len() {
        assert(s.take(j) =~= s);
    } else {
        assert(s.take(j + 1).drop_last() =~= s.take(j));
        assert(s.take(j + 1).last() == s[j]);
        assert(dec_val(s.take(j + 1)) == dec_val(s.take(j)) * 10 + digit_val(s[j]));
        lemma_dec_val_take_le(s, j + 1);
    }
}

/// Cuts a byte string at every occurrence of `sep`.
fn split_bytes(s: &Vec<u8>, sep: u8) -> (r: Vec<Vec<u8>>)
    ensures
        r.deep_view() == split_on(s@, sep),
        r@.len() >= 1,
{
    let mut fields: Vec<Vec<u8>> = Vec::new();
    let mut cur: Vec<u8> = Vec::new();
    let mut i: usize = 0;
    proof {
        assert(cur@ + s@.skip(0) =~= s@);
        assert(fields.deep_view() + split_on(s@, sep) =~= split_on(s@, sep));
    }
    while i < s.len()
        invariant
            i <= s@.len(),
            forall|t: int| 0 <= t < cur@.len() ==> cur@[t] != sep,
            split_on(s@, sep) == fields.deep_view() + split_on(cur@ + s@.skip(i as int), sep),
        decreases s@.len() - i,
    {
        let b = s[i];
        if b == sep {
            proof {
                assert(cur@ + s@.skip(i as int) =~= cur@ + seq![sep] + s@.skip(i as int + 1));
                lemma_split_at_sep(cur@, s@.skip(i as int + 1), sep);
            }
            let ghost prev_dv = fields.deep_view();
            let ghost done_view = cur@;
            let done = cur;
            cur = Vec::new();
            fields.push(done);
            proof {
                assert(fields@[fields@.len() - 1].deep_view() =~= done_view);
                assert(fields.deep_view() =~= prev_dv.push(done_view));
                assert(cur@ + s@.skip(i as int + 1) =~= s@.skip(i as int + 1));
                assert(prev_dv + (seq![done_view] + split_on(s@.skip(i as int + 1), sep))
                    =~= prev_dv.push(done_view) + split_on(s@.skip(i as int + 1), sep));
                assert(split_on(s@, sep) == fields.deep_view() + split_on(
                    cur@ + s@.skip(i as int + 1),
                    sep,
                ));
            }
        } else {
            let ghost cur0 = cur@;
            cur.push(b);
            proof {
                assert(cur@ + s@.skip(i as int + 1) =~= cur0 + s@.skip(i as int));
            }
        }
        i = i + 1;
    }
    proof {
        assert(cur@ + s@.skip(s@.len() as int) =~= cur@);
        lemma_split_sep_free(cur@, sep);
    }
    let ghost prev_dv = fields.deep_view();
    let ghost cv = cur@;
    fields.push(cur);
    proof {
        assert(fields@[fields@.len() - 1].deep_view() =~= cv);
        assert(fields.deep_view() =~= prev_dv.push(cv));
        assert(prev_dv + seq![cv] =~= prev_dv.push(cv));
        assert(fields.deep_view() == split_on(s@, sep));
    }
    fields
}

/// The lines of the seed text, as runtime byte strings.
fn split_lines(s: &Vec<u8>) -> (r: Vec<Vec<u8>>)
    ensures
        r.deep_view() == spec_lines(s@),
{
    let mut raw = split_bytes(s, LF);
    let last_is_empty = raw[raw.len() - 1].len() == 0;
    let ghost raw0 = raw.deep_view();
    if last_is_empty {
        let _ = raw.pop();
        proof {
            assert(raw.deep_view() =~= raw0.drop_last());
        }
    }
    let ghost kept = raw.deep_view();
    let mut i: usize = 0;
    while i < raw.len()
        invariant
            i <= raw@.len(),
            raw@.len() == kept.len(),
            forall|j: int| 0 <= j < i ==> (#[trigger] raw@[j])@ == strip_cr(kept[j]),
            forall|j: int| i <= j < kept.len() ==> (#[trigger] raw@[j])@ == kept[j],
        decreases raw@.len() - i,
    {
        let line: &mut Vec<u8> = &mut raw[i];
        let ll = line.len();
        if ll > 0 && line[ll - 1] == CR {
            let _ = line.pop();
            proof {
                assert(final(line)@ =~= strip_cr(kept[i as int]));
            }
        }
        i = i + 1;
    }
    proof {
        assert forall|j: int| 0 <= j < kept.len() implies raw.deep_view()[j] == strip_cr(
            kept[j],
        ) by {
            assert(raw@[j].deep_view() =~= raw@[j]@);
        }
        assert(raw.deep_view() =~= kept.map_values(|l: Seq<u8>| strip_cr(l)));
    }
    raw
}

/// Parses a field as an unsigned decimal coordinate.  Fails exactly on
/// fields that are empty, contain a non-digit, or overflow the machine's
/// coordinate range.
fn parse_usize_field(f: &Vec<u8>) -> (r: Option<usize>)
    ensures
        r.is_some() <==> valid_field(f@),
        r matches Some(v) ==> v == dec_val(f@),
{
    if f.len() == 0 {
        return None;
    }
    let mut acc: usize = 0;
    let mut i: usize = 0;
    while i < f.len()
        invariant
            i <= f@.len(),
            f@.len() > 0,
            forall|t: int| 0 <= t < i ==> is_digit(#[trigger] f@[t]),
            acc == dec_val(f@.take(i as int)),
        decreases f@.len() - i,
    {
        let b = f[i];
        if b < 48 || b > 57 {
            return None;
        }
        let d = (b - 48) as usize;
        let wide: u128 = acc as u128 * 10 + d as u128;
        proof {
            assert(f@.take(i as int + 1).drop_last() =~= f@.take(i as int));
            assert(f@.take(i as int + 1).last() == f@[i as int]);
        }
        if wide > usize::MAX as u128 {
            proof {
                lemma_dec_val_take_le(f@, i as int + 1);
            }
            return None;
        }
        acc = wide as usize;
        i = i + 1;
    }
    proof {
        assert(f@.take(f@.len() as int) =~= f@);
    }
    Some(acc)
}

/// Parses one record.  Succeeds exactly on the lines `line_coord`
/// accepts, returning the coordinate it denotes.
pub fn parse_seed_line(line: &Vec<u8>) -> (r: Option<(usize, usize, usize)>)
    ensures
        r.is_some() <==> line_coord(line@).is_some(),
        r matches Some(t) ==> line_coord(line@) == Some(
            (t.0 as nat, t.1 as nat, t.2 as nat),
        ),
{
    let fields = split_bytes(line, SEMI);
    let ghost fs = split_on(line@, SEMI);
    proof {
        assert forall|i: int| 0 <= i < fields@.len() implies (#[trigger] fields@[i])@ == fs[i] by {
            assert(fields.deep_view()[i] == fields@[i].deep_view());
            assert(fields@[i].deep_view() =~= fields@[i]@);
        }
    }
    if fields.len() < 2 || fields.len() > 3 {
        return None;
    }
    let x = match parse_usize_field(&fields[0]) {
        Some(v) => v,
        None => {
            return None;
        },
    };
    let y = match parse_usize_field(&fields[1]) {
        Some(v) => v,
        None => {
            return None;
        },
    };
    let z = if fields.len() == 3 {
        match parse_usize_field(&fields[2]) {
            Some(v) => v,
            None => {
                return None;
            },
        }
    } else {
        0
    };
    proof {
        assert forall|i: int| 0 <= i < fs.len() implies valid_field(#[trigger] fs[i]) by {
            assert(fs[i] == fields@[i]@);
        }
    }
    Some((x, y, z))
}

/// The indices of the malformed seed lines, in order, so the host can
/// warn about each skipped record.
pub fn malformed_line_numbers(seed: &Vec<u8>) -> (r: Vec<usize>)
    ensures
        forall|t: int|
            0 <= t < r@.len() ==> #[trigger] r@[t] < spec_lines(seed@).len() && line_coord(
                spec_lines(seed@)[r@[t] as int],
            ).is_none(),
        forall|i: int|
            0 <= i < spec_lines(seed@).len() && line_coord(
                #[trigger] spec_lines(seed@)[i],
            ).is_none() ==> r@.contains(i as usize),
        forall|t1: int, t2: int| 0 <= t1 < t2 < r@.len() ==> r@[t1] < r@[t2],
{
    let lines = split_lines(seed);
    let mut r: Vec<usize> = Vec::new();
    let mut i: usize = 0;
    while i < lines.len()
        invariant
            i <= lines@.len(),
            lines.deep_view() == spec_lines(seed@),
            forall|t: int|
                0 <= t < r@.len() ==> #[trigger] r@[t] < i && line_coord(
                    spec_lines(seed@)[r@[t] as int],
                ).is_none(),
            forall|j: int|
                0 <= j < i && line_coord(#[trigger] spec_lines(seed@)[j]).is_none()
                    ==> r@.contains(j as usize),
            forall|t1: int, t2: int| 0 <= t1 < t2 < r@.len() ==> r@[t1] < r@[t2],
        decreases lines@.len() - i,
    {
        let ghost prev = r@;
        let parsed = parse_seed_line(&lines[i]);
        proof {
            assert(lines@[i as int]@ == lines.deep_view()[i as int]);
        }
        if parsed.is_none() {
            r.push(i);
        }
        proof {
            assert forall|j: int|
                0 <= j < i + 1 && line_coord(#[trigger] spec_lines(seed@)[j]).is_none() implies r@
                .contains(j as usize) by {
                if j < i {
                    assert(prev.contains(j as usize));
                    let t = choose|t: int| 0 <= t < prev.len() && prev[t] == j as usize;
                    assert(r@[t] == j as usize);
                } else {
                    assert(r@[r@.len() - 1] == i);
                }
            }
        }
        i = i + 1;
    }
    r
}

/// Builds the initial board from seed text: every well-formed record
/// marks its cell alive-fresh, every other cell starts at rest.
/// Malformed records are skipped.  Fails, producing the first offending
/// coordinate, exactly when some well-formed record falls off the board.
pub fn create_board(
    seed: &Vec<u8>,
    width: usize,
    height: usize,
    depth: usize,
    adjacency: Adjacency,
) -> (r: Result<Board, SeedError>)
    requires
        width <= MAX_DIM,
        height <= MAX_DIM,
        depth <= MAX_DIM,
    ensures
        r.is_ok() <==> !has_out_of_range(seed@, width, height, depth),
        r matches Ok(board) ==> {
            &&& board.wf()
            &&& board.width == width
            &&& board.height == height
            &&& board.depth == depth
            &&& board.adjacency == adjacency
            &&& forall|x: int, y: int, z: int|
                board.spec_in_bounds(x, y, z) ==> #[trigger] board.spec_cell(x, y, z) == if
                    spec_seeded(seed@, x as nat, y as nat, z as nat) {
                    alive_fresh_cell(0)
                } else {
                    rest_cell()
                }
        },
        r matches Err(e) ==> exists|i: int|
            {
                &&& 0 <= i < spec_lines(seed@).len()
                &&& line_out_of_range(#[trigger] spec_lines(seed@)[i], width, height, depth)
                &&& forall|j: int|
                    0 <= j < i ==> !line_out_of_range(spec_lines(seed@)[j], width, height, depth)
                &&& e matches SeedError::OutOfRange { x, y, z } && line_coord(spec_lines(seed@)[i])
                    == Some((x as nat, y as nat, z as nat))
            },
{
    let lines = split_lines(seed);
    let mut board = Board::new(width, height, depth, adjacency);
    let mut i: usize = 0;
    while i < lines.len()
        invariant
            i <= lines@.len(),
            lines.deep_view() == spec_lines(seed@),
            board.wf(),
            board.width == width,
            board.height == height,
            board.depth == depth,
            board.adjacency == adjacency,
            forall|j: int|
                0 <= j < i ==> !line_out_of_range(
                    #[trigger] spec_lines(seed@)[j],
                    width,
                    height,
                    depth,
                ),
            forall|x: int, y: int, z: int|
                board.spec_in_bounds(x, y, z) ==> #[trigger] board.spec_cell(x, y, z) == if (
                exists|j: int|
                    0 <= j < i && line_coord(#[trigger] spec_lines(seed@)[j]) == Some(
                        (x as nat, y as nat, z as nat),
                    )) {
                    alive_fresh_cell(0)
                } else {
                    rest_cell()
                },
        decreases lines@.len() - i,
    {
        proof {
            assert(lines@[i as int]@ == lines.deep_view()[i as int]);
        }
        let parsed = parse_seed_line(&lines[i]);
        match parsed {
            Some((x, y, z)) => {
                if x >= width || y >= height || z >= depth {
                    return Err(SeedError::OutOfRange { x, y, z });
                }
                board.seed_cell(x, y, z);
            },
            None => {},
        }
        i = i + 1;
    }
    proof {
        assert forall|x: int, y: int, z: int| board.spec_in_bounds(x, y, z) implies #[trigger] board
            .spec_cell(x, y, z) == if spec_seeded(seed@, x as nat, y as nat, z as nat) {
            alive_fresh_cell(0)
        } else {
            rest_cell()
        } by {
            assert(spec_seeded(seed@, x as nat, y as nat, z as nat) <==> exists|j: int|
                0 <= j < lines@.len() && line_coord(#[trigger] spec_lines(seed@)[j]) == Some(
                    (x as nat, y as nat, z as nat),
                ));
        }
    }
    Ok(board)
}

} // verus!
