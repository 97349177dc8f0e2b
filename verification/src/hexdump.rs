use vstd::prelude::*;

use crate::text::{chars_to_string, repeat_char, spec_hex_w, u64_to_hex};

verus! {

/// Two hexadecimal digits and a space for one byte.
pub open spec fn hex_cell(b: u8) -> Seq<char> {
    spec_hex_w(b as nat, 2) + seq![' ']
}

/// The gutter shows a printable byte as its character and anything else as a
/// dot.
pub open spec fn gutter_char(b: u8) -> char {
    if 0x20 <= b < 0x7e {
        b as char
    } else {
        '.'
    }
}

/// The first `k` hex cells of a row, each eighth one led by an extra space.
pub open spec fn hex_cells(row: Seq<u8>, k: int) -> Seq<char>
    decreases k,
{
    if k <= 0 {
        Seq::empty()
    } else {
        hex_cells(row, k - 1) + (if (k - 1) % 8 == 0 {
            seq![' ']
        } else {
            Seq::empty()
        }) + hex_cell(row[k - 1])
    }
}

/// The first `k` gutter characters of a row.
pub open spec fn gutter_cells(row: Seq<u8>, k: int) -> Seq<char>
    decreases k,
{
    if k <= 0 {
        Seq::empty()
    } else {
        gutter_cells(row, k - 1).push(gutter_char(row[k - 1]))
    }
}

/// The blank filling of a short last row: three spaces per missing cell, and
/// one more when the row ends before its ninth cell's extra space.
pub open spec fn row_padding(count: int) -> Seq<char> {
    Seq::new((3 * (16 - count)) as nat, |i: int| ' ') + (if count < 8 {
        seq![' ']
    } else {
        Seq::empty()
    })
}

/// One dump row: the offset of its first byte in eight hex digits, the hex
/// cells, blank filling when short, and the gutter between bars.
pub open spec fn row_text(bytes: Seq<u8>, r: int) -> Seq<char> {
    let row = bytes.subrange(16 * r, if 16 * r + 16 <= bytes.len() {
        16 * r + 16
    } else {
        bytes.len() as int
    });
    spec_hex_w((16 * r) as nat, 8) + seq![' '] + hex_cells(row, row.len() as int) + row_padding(
        row.len() as int,
    ) + seq![' ', '|'] + gutter_cells(row, row.len() as int) + seq!['|', '\n']
}

/// The first `r` rows of the dump.
pub open spec fn rows_text(bytes: Seq<u8>, r: int) -> Seq<char>
    decreases r,
{
    if r <= 0 {
        Seq::empty()
    } else {
        rows_text(bytes, r - 1) + row_text(bytes, r - 1)
    }
}

/// How many rows the dump of `bytes` has: sixteen bytes to a row, with a
/// short last row for the remainder.
pub open spec fn num_rows(bytes: Seq<u8>) -> int {
    if bytes.len() % 16 == 0 {
        bytes.len() as int / 16
    } else {
        bytes.len() as int / 16 + 1
    }
}

/// The whole dump of `bytes`: nothing for no bytes.
pub open spec fn spec_hexdump(bytes: Seq<u8>) -> Seq<char> {
    rows_text(bytes, num_rows(bytes))
}

fn dump_row(bytes: &Vec<u8>, r: usize) -> (s: String)
    requires
        16 * r < bytes@.len(),
        bytes@.len() <= usize::MAX,
    ensures
        s@ == row_text(bytes@, r as int),
{
    let start: usize = 16 * r;
    let end: usize = if 16 <= bytes.len() && start <= bytes.len() - 16 {
        start + 16
    } else {
        bytes.len()
    };
    let ghost rowg = bytes@.subrange(start as int, end as int);
    let mut s = u64_to_hex(start as u64, 8);
    s.append(" ");
    proof {
        assert(" "@ =~= seq![' ']) by {
            reveal_strlit(" ");
        }
    }
    let count: usize = end - start;
    let mut k: usize = 0;
    while k < count
        invariant
            16 * r == start,
            start < bytes@.len() <= usize::MAX,
            end == if 16 * r + 16 <= bytes@.len() {
                16 * r + 16
            } else {
                bytes@.len() as int
            },
            count == end - start,
            k <= count,
            rowg == bytes@.subrange(start as int, end as int),
            s@ == spec_hex_w((16 * r) as nat, 8) + seq![' '] + hex_cells(rowg, k as int),
        decreases count - k,
    {
        if k % 8 == 0 {
            s.append(" ");
        }
        let cell = u64_to_hex(bytes[start + k] as u64, 2);
        s.append(cell.as_str());
        s.append(" ");
        k = k + 1;
        proof {
            assert(rowg[k - 1] == bytes@[start + k - 1]);
            assert(" "@ =~= seq![' ']) by {
                reveal_strlit(" ");
            }
            assert(s@ =~= spec_hex_w((16 * r) as nat, 8) + seq![' '] + hex_cells(rowg, k as int));
        }
    }
    let pad = repeat_char(' ', 3 * (16 - count));
    s.append(pad.as_str());
    if count < 8 {
        s.append(" ");
    }
    s.append(" |");
    proof {
        assert(" "@ =~= seq![' ']) by {
            reveal_strlit(" ");
        }
        assert(" |"@ =~= seq![' ', '|']) by {
            reveal_strlit(" |");
        }
        assert(Seq::new((3 * (16 - count)) as nat, |i: int| ' ') =~= pad@);
        assert(s@ =~= spec_hex_w((16 * r) as nat, 8) + seq![' '] + hex_cells(rowg, count as int)
            + row_padding(count as int) + seq![' ', '|']);
    }
    let mut g: usize = 0;
    let mut gut: Vec<char> = Vec::new();
    while g < count
        invariant
            start < bytes@.len() <= usize::MAX,
            end <= bytes@.len(),
            count == end - start,
            g <= count,
            rowg == bytes@.subrange(start as int, end as int),
            gut@ == gutter_cells(rowg, g as int),
        decreases count - g,
    {
        let b = bytes[start + g];
        if 0x20 <= b && b < 0x7e {
            gut.push(b as char);
        } else {
            gut.push('.');
        }
        g = g + 1;
        proof {
            assert(rowg[g - 1] == bytes@[start + g - 1]);
            assert(gut@ =~= gutter_cells(rowg, g as int));
        }
    }
    let gs = chars_to_string(&gut);
    s.append(gs.as_str());
    s.append("|\n");
    proof {
        assert("|\n"@ =~= seq!['|', '\n']) by {
            reveal_strlit("|\n");
        }
        assert(s@ =~= row_text(bytes@, r as int));
    }
    s
}

/// The classic sixteen-byte-per-row dump of `bytes`: offsets, hex cells and
/// an ascii gutter, exactly as `spec_hexdump` lays it out.
pub fn hexdump_text(bytes: &Vec<u8>) -> (s: String)
    ensures
        s@ == spec_hexdump(bytes@),
{
    let mut s = String::new();
    let total = bytes.len();
    let nrows: usize = if total % 16 == 0 {
        total / 16
    } else {
        total / 16 + 1
    };
    let mut r: usize = 0;
    while r < nrows
        invariant
            nrows == num_rows(bytes@),
            r <= nrows,
            total == bytes@.len(),
            s@ == rows_text(bytes@, r as int),
        decreases nrows - r,
    {
        proof {
            assert(16 * r < bytes@.len());
        }
        let row = dump_row(bytes, r);
        s.append(row.as_str());
        r = r + 1;
    }
    s
}

} // verus!
