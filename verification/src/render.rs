use vstd::prelude::*;

use crate::column::{Column, SizeFormat};
use crate::fs::{File, FileType, Metadata};
use crate::text::{dec_str, int_str, spaces_seq, u64_string};

verus! {

/// The display width of a character sequence, as a terminal shows it.
/// It depends on the characters alone.
pub uninterp spec fn str_width(s: Seq<char>) -> nat;

/// Relies on `unicode_width`'s width of a `&str`: the answer is a
/// function of the characters alone, and an empty string has width
/// zero.
#[verifier::external_body]
pub fn display_width(s: &str) -> (r: usize)
    ensures
        r as nat == str_width(s@),
        s@.len() == 0 ==> r == 0,
{
    unicode_width::UnicodeWidthStr::width(s)
}

/// One permission character: the flag's letter when set, `-` when
/// not.
pub open spec fn perm_ch(on: bool, c: char) -> char {
    if on {
        c
    } else {
        '-'
    }
}

/// The type character that leads the permissions cell.
pub open spec fn type_ch(t: FileType) -> char {
    match t {
        FileType::Directory => 'd',
        FileType::Symlink => 'l',
        FileType::Regular => '-',
        FileType::Other => '?',
    }
}

/// The permissions cell: the type character, then the nine
/// read/write/run flags.
pub open spec fn spec_perm_cell(m: Metadata) -> Seq<char> {
    seq![
        type_ch(m.filetype),
        perm_ch(m.permissions & 0o400 != 0, 'r'),
        perm_ch(m.permissions & 0o200 != 0, 'w'),
        perm_ch(m.permissions & 0o100 != 0, 'x'),
        perm_ch(m.permissions & 0o040 != 0, 'r'),
        perm_ch(m.permissions & 0o020 != 0, 'w'),
        perm_ch(m.permissions & 0o010 != 0, 'x'),
        perm_ch(m.permissions & 0o004 != 0, 'r'),
        perm_ch(m.permissions & 0o002 != 0, 'w'),
        perm_ch(m.permissions & 0o001 != 0, 'x'),
    ]
}

/// One permission character, executable form.
fn perm_char(on: bool, c: char) -> (r: char)
    ensures
        r == perm_ch(on, c),
{
    if on {
        c
    } else {
        '-'
    }
}

/// Renders the permissions cell.
#[verifier::rlimit(100)]
pub fn permissions_cell(m: &Metadata) -> (r: String)
    ensures
        r@ == spec_perm_cell(*m),
{
    let mut out = String::new();
    let t = match m.filetype {
        FileType::Directory => 'd',
        FileType::Symlink => 'l',
        FileType::Regular => '-',
        FileType::Other => '?',
    };
    crate::fs::push_char(&mut out, t);
    crate::fs::push_char(&mut out, perm_char(m.permissions & 0o400 != 0, 'r'));
    crate::fs::push_char(&mut out, perm_char(m.permissions & 0o200 != 0, 'w'));
    crate::fs::push_char(&mut out, perm_char(m.permissions & 0o100 != 0, 'x'));
    crate::fs::push_char(&mut out, perm_char(m.permissions & 0o040 != 0, 'r'));
    crate::fs::push_char(&mut out, perm_char(m.permissions & 0o020 != 0, 'w'));
    crate::fs::push_char(&mut out, perm_char(m.permissions & 0o010 != 0, 'x'));
    crate::fs::push_char(&mut out, perm_char(m.permissions & 0o004 != 0, 'r'));
    crate::fs::push_char(&mut out, perm_char(m.permissions & 0o002 != 0, 'w'));
    crate::fs::push_char(&mut out, perm_char(m.permissions & 0o001 != 0, 'x'));
    proof {
        assert(out@ =~= spec_perm_cell(*m));
    }
    out
}

/// `base` to the power `k`.
pub open spec fn pow_of(base: nat, k: nat) -> nat
    decreases k,
{
    if k == 0 {
        1
    } else {
        base * pow_of(base, (k - 1) as nat)
    }
}

/// How many times `n` divides by `base` before falling under it: the
/// index of the size prefix to use.
pub open spec fn prefix_index(n: nat, base: nat) -> nat
    decreases n,
    via prefix_index_decreases
{
    if base < 2 || n < base {
        0
    } else {
        1 + prefix_index(n / base, base)
    }
}

#[via_fn]
proof fn prefix_index_decreases(n: nat, base: nat) {
    if !(base < 2 || n < base) {
        assert(n / base < n) by (nonlinear_arith)
            requires
                base >= 2,
                n >= base,
        ;
    }
}

/// The unit text for one prefix step.
pub open spec fn spec_unit(k: nat, binary: bool) -> Seq<char> {
    let letter: Seq<char> = if k == 1 {
        "K"@
    } else if k == 2 {
        "M"@
    } else if k == 3 {
        "G"@
    } else if k == 4 {
        "T"@
    } else if k == 5 {
        "P"@
    } else {
        "E"@
    };
    if binary {
        letter + "i"@
    } else {
        letter
    }
}

/// A size scaled by a prefix: under one unit the plain count; then
/// one decimal digit while the value is under ten, whole numbers
/// beyond, with the unit letter after the digits.
pub open spec fn spec_scaled(n: nat, base: nat, binary: bool) -> Seq<char> {
    let k = prefix_index(n, base);
    if k == 0 {
        dec_str(n)
    } else {
        let v10 = n * 10 / pow_of(base, k);
        if v10 < 100 {
            dec_str(v10 / 10) + seq!['.'] + dec_str(v10 % 10) + spec_unit(k, binary)
        } else {
            dec_str(v10 / 10) + spec_unit(k, binary)
        }
    }
}

/// The size cell under each format.
pub open spec fn spec_size_cell(fmt: SizeFormat, size: u64) -> Seq<char> {
    match fmt {
        SizeFormat::JustBytes => dec_str(size as nat),
        SizeFormat::DecimalBytes => spec_scaled(size as nat, 1000, false),
        SizeFormat::BinaryBytes => spec_scaled(size as nat, 1024, true),
    }
}

/// A number below a power of the base takes fewer prefix steps than
/// that power.
proof fn lemma_prefix_bound(n: nat, base: nat, j: nat)
    requires
        base >= 2,
        j >= 1,
        n < pow_of(base, j),
    ensures
        prefix_index(n, base) < j,
    decreases j,
{
    if n < base {
    } else {
        assert(j >= 2) by {
            if j == 1 {
                assert(pow_of(base, 0) == 1);
                assert(pow_of(base, 1) == base * pow_of(base, 0));
                assert(base * 1 == base) by (nonlinear_arith);
            }
        }
        assert(n / base < pow_of(base, (j - 1) as nat)) by (nonlinear_arith)
            requires
                base >= 2,
                n < pow_of(base, j),
                pow_of(base, j) == base * pow_of(base, (j - 1) as nat),
        ;
        lemma_prefix_bound(n / base, base, (j - 1) as nat);
    }
}

/// The unit text, executable form.
fn unit_text(k: usize, binary: bool) -> (r: String)
    requires
        1 <= k <= 6,
    ensures
        r@ == spec_unit(k as nat, binary),
{
    let letter: &'static str = if k == 1 {
        "K"
    } else if k == 2 {
        "M"
    } else if k == 3 {
        "G"
    } else if k == 4 {
        "T"
    } else if k == 5 {
        "P"
    } else {
        "E"
    };
    let mut out = String::from_str(letter);
    if binary {
        out.append("i");
    }
    out
}

/// Renders a scaled size.
fn scaled_size(n: u64, base: u64, binary: bool) -> (r: String)
    requires
        base == 1000 || base == 1024,
    ensures
        r@ == spec_scaled(n as nat, base as nat, binary),
{
    let mut d: u64 = 1;
    let mut k: usize = 0;
    proof {
        assert(pow_of(base as nat, 0) == 1);
    }
    while n / d >= base
        invariant
            base == 1000 || base == 1024,
            d >= 1,
            k <= 6,
            d as nat == pow_of(base as nat, k as nat),
            prefix_index(n as nat, base as nat) == k + prefix_index(
                (n / d) as nat,
                base as nat,
            ),
        decreases n / d,
    {
        proof {
            assert(d as int * (n as int / d as int) <= n as int) by (nonlinear_arith)
                requires
                    d >= 1,
                    n >= 0,
            ;
            assert((d as int) * (base as int) <= n as int) by (nonlinear_arith)
                requires
                    n as int / d as int >= base as int,
                    d >= 1,
                    base >= 2,
                    d as int * (n as int / d as int) <= n as int,
            ;
            vstd::arithmetic::div_mod::lemma_div_denominator(n as int, d as int, base as int);
            assert((n as int / d as int) / (base as int) == n as int / (d as int
                * base as int));
            assert(prefix_index((n / d) as nat, base as nat) == 1 + prefix_index(
                ((n as int / d as int) / (base as int)) as nat,
                base as nat,
            ));
            reveal_with_fuel(pow_of, 8);
            if base == 1000 {
                assert((n as nat) < pow_of(base as nat, 7));
            } else {
                assert((n as nat) < pow_of(base as nat, 7));
            }
            lemma_prefix_bound(n as nat, base as nat, 7);
        }
        d = d * base;
        k = k + 1;
    }
    if k == 0 {
        return u64_string(n);
    }
    proof {
        assert(prefix_index((n / d) as nat, base as nat) == 0);
        assert(prefix_index(n as nat, base as nat) == k as nat);
        assert(d >= base) by {
            assert(pow_of(base as nat, k as nat) >= base) by (nonlinear_arith)
                requires
                    k >= 1,
                    base >= 2,
                    pow_of(base as nat, k as nat) == base * pow_of(
                        base as nat,
                        (k - 1) as nat,
                    ),
                    pow_of(base as nat, (k - 1) as nat) >= 1,
            ;
            assert(pow_of(base as nat, (k - 1) as nat) >= 1) by {
                lemma_pow_pos(base as nat, (k - 1) as nat);
            }
        }
    }
    let wide: u128 = (n as u128) * 10 / (d as u128);
    proof {
        assert((n as int) * 10 / (d as int) == wide as int) by (nonlinear_arith)
            requires
                wide as int == (n as u128 as int) * 10 / (d as u128 as int),
                n as u128 as int == n as int,
                d as u128 as int == d as int,
                d >= 1,
        ;
        assert(wide <= u64::MAX as u128) by (nonlinear_arith)
            requires
                wide as int == (n as int) * 10 / (d as int),
                d >= 1000,
                n <= u64::MAX,
        ;
    }
    let v10: u64 = wide as u64;
    let unit = unit_text(k, binary);
    let mut out: String;
    if v10 < 100 {
        out = u64_string(v10 / 10);
        crate::fs::push_char(&mut out, '.');
        let frac = u64_string(v10 % 10);
        out.append(frac.as_str());
        out.append(unit.as_str());
        proof {
            assert(out@ =~= spec_scaled(n as nat, base as nat, binary));
        }
    } else {
        out = u64_string(v10 / 10);
        out.append(unit.as_str());
        proof {
            assert(out@ =~= spec_scaled(n as nat, base as nat, binary));
        }
    }
    out
}

/// Powers are positive.
proof fn lemma_pow_pos(base: nat, k: nat)
    requires
        base >= 1,
    ensures
        pow_of(base, k) >= 1,
    decreases k,
{
    if k > 0 {
        lemma_pow_pos(base, (k - 1) as nat);
        assert(base * pow_of(base, (k - 1) as nat) >= 1) by (nonlinear_arith)
            requires
                base >= 1,
                pow_of(base, (k - 1) as nat) >= 1,
        ;
    }
}

/// Renders the size cell.
pub fn size_cell(fmt: SizeFormat, size: u64) -> (r: String)
    ensures
        r@ == spec_size_cell(fmt, size),
{
    match fmt {
        SizeFormat::JustBytes => u64_string(size),
        SizeFormat::DecimalBytes => scaled_size(size, 1000, false),
        SizeFormat::BinaryBytes => scaled_size(size, 1024, true),
    }
}

/// The owner cell: the user's name when it resolved, the bare id
/// otherwise.
pub open spec fn spec_user_cell(f: File) -> Seq<char> {
    match f.user_name {
        Option::Some(n) => n@,
        Option::None => dec_str(f.metadata.uid as nat),
    }
}

/// The group cell, likewise.
pub open spec fn spec_group_cell(f: File) -> Seq<char> {
    match f.group_name {
        Option::Some(n) => n@,
        Option::None => dec_str(f.metadata.gid as nat),
    }
}

/// The status cell: the computed two-character code, or a dash pair.
pub open spec fn spec_git_cell(f: File) -> Seq<char> {
    match f.git_status {
        Option::Some(s) => s@,
        Option::None => "--"@,
    }
}

/// The text of one metadata cell.  Timestamp cells show the captured
/// time as plain seconds: calendar formatting belongs to a
/// collaborator, outside the engine.
pub open spec fn spec_cell(col: Column, f: File) -> Seq<char> {
    match col {
        Column::Permissions => spec_perm_cell(f.metadata),
        Column::FileSize(fmt) => spec_size_cell(fmt, f.metadata.size),
        Column::Timestamp(t) => match t {
            crate::column::TimeType::Modified => int_str(f.metadata.mtime as int),
            crate::column::TimeType::Accessed => int_str(f.metadata.atime as int),
            crate::column::TimeType::Created => int_str(f.metadata.ctime as int),
        },
        Column::Blocks => dec_str(f.metadata.blocks as nat),
        Column::User => spec_user_cell(f),
        Column::Group => spec_group_cell(f),
        Column::HardLinks => dec_str(f.metadata.links as nat),
        Column::Inode => dec_str(f.metadata.inode as nat),
        Column::GitStatus => spec_git_cell(f),
    }
}

/// Renders one metadata cell.
pub fn render_cell(col: &Column, f: &File) -> (r: String)
    ensures
        r@ == spec_cell(*col, *f),
{
    match col {
        Column::Permissions => permissions_cell(&f.metadata),
        Column::FileSize(fmt) => size_cell(*fmt, f.metadata.size),
        Column::Timestamp(t) => match t {
            crate::column::TimeType::Modified => crate::text::i64_string(f.metadata.mtime),
            crate::column::TimeType::Accessed => crate::text::i64_string(f.metadata.atime),
            crate::column::TimeType::Created => crate::text::i64_string(f.metadata.ctime),
        },
        Column::Blocks => u64_string(f.metadata.blocks),
        Column::User => match &f.user_name {
            Option::Some(n) => n.clone(),
            Option::None => {
                let mut out = String::new();
                crate::text::push_u64(&mut out, f.metadata.uid as u64);
                proof {
                    assert(out@ =~= dec_str(f.metadata.uid as nat));
                }
                out
            },
        },
        Column::Group => match &f.group_name {
            Option::Some(n) => n.clone(),
            Option::None => {
                let mut out = String::new();
                crate::text::push_u64(&mut out, f.metadata.gid as u64);
                proof {
                    assert(out@ =~= dec_str(f.metadata.gid as nat));
                }
                out
            },
        },
        Column::HardLinks => u64_string(f.metadata.links),
        Column::Inode => u64_string(f.metadata.inode),
        Column::GitStatus => match &f.git_status {
            Option::Some(s) => s.clone(),
            Option::None => String::from_str("--"),
        },
    }
}

/// The letter for one side of a version-control status pair.
pub open spec fn spec_git_char(
    new: bool,
    modified: bool,
    deleted: bool,
    renamed: bool,
    typechange: bool,
) -> char {
    if new {
        'N'
    } else if modified {
        'M'
    } else if deleted {
        'D'
    } else if renamed {
        'R'
    } else if typechange {
        'T'
    } else {
        '-'
    }
}

/// One status letter from the five flags of one side.
pub fn git_status_char(new: bool, modified: bool, deleted: bool, renamed: bool, typechange: bool)
    -> (r: char)
    ensures
        r == spec_git_char(new, modified, deleted, renamed, typechange),
{
    if new {
        'N'
    } else if modified {
        'M'
    } else if deleted {
        'D'
    } else if renamed {
        'R'
    } else if typechange {
        'T'
    } else {
        '-'
    }
}

/// A cell padded to a column width: spaces go before a right-aligned
/// cell and after a left-aligned one, by display width.
pub open spec fn pad_cell(s: Seq<char>, w: int, right: bool) -> Seq<char> {
    let pad = if w >= str_width(s) {
        w - str_width(s)
    } else {
        0
    };
    if right {
        spaces_seq(pad) + s
    } else {
        s + spaces_seq(pad)
    }
}

/// The cells of one entry's row: each metadata cell, then the name.
pub open spec fn spec_row_cells(cols: Seq<crate::column::Column>, f: File) -> Seq<Seq<char>> {
    Seq::new(cols.len(), |j: int| spec_cell(cols[j], f)).push(f.name@)
}

/// The cells of the header row: each column's heading, then "Name".
pub open spec fn spec_header_cells(cols: Seq<crate::column::Column>) -> Seq<Seq<char>> {
    Seq::new(cols.len(), |j: int| crate::column::spec_header(cols[j])).push("Name"@)
}

/// The whole table: the header row when asked for, then one row per
/// entry.
pub open spec fn spec_table(
    cols: Seq<crate::column::Column>,
    header: bool,
    files: Seq<File>,
) -> Seq<Seq<Seq<char>>> {
    let body = Seq::new(files.len(), |i: int| spec_row_cells(cols, files[i]));
    if header {
        seq![spec_header_cells(cols)] + body
    } else {
        body
    }
}

/// The widest cell of column `j` among the first `upto` rows.
pub open spec fn spec_col_w(table: Seq<Seq<Seq<char>>>, j: int, upto: int) -> int
    decreases upto,
{
    if upto <= 0 {
        0
    } else {
        let prev = spec_col_w(table, j, upto - 1);
        let w = if 0 <= j < table[upto - 1].len() {
            str_width(table[upto - 1][j]) as int
        } else {
            0
        };
        if w > prev {
            w
        } else {
            prev
        }
    }
}

/// One rendered row, from cell `j` on: every cell but the last is
/// padded to its column's width and followed by one space; the name
/// cell closes the line unpadded.
pub open spec fn spec_line_from(
    row: Seq<Seq<char>>,
    cols: Seq<crate::column::Column>,
    table: Seq<Seq<Seq<char>>>,
    j: int,
) -> Seq<char>
    decreases row.len() - j,
{
    if j < 0 || j >= row.len() {
        Seq::empty()
    } else if j == row.len() - 1 {
        row[j]
    } else {
        pad_cell(
            row[j],
            spec_col_w(table, j, table.len() as int),
            crate::column::spec_alignment(cols[j]) is Right,
        ) + seq![' '] + spec_line_from(row, cols, table, j + 1)
    }
}

/// Every line of the details table.
pub open spec fn spec_details_lines(
    cols: Seq<crate::column::Column>,
    header: bool,
    files: Seq<File>,
) -> Seq<Seq<char>> {
    let table = spec_table(cols, header, files);
    Seq::new(table.len(), |i: int| spec_line_from(table[i], cols, table, 0))
}

/// Renders one table row.
fn render_table_row(columns: &Vec<crate::column::Column>, f: &File) -> (r: Vec<String>)
    ensures
        r.deep_view() == spec_row_cells(columns@, *f),
{
    let mut row: Vec<String> = Vec::new();
    let nc = columns.len();
    let mut j: usize = 0;
    while j < nc
        invariant
            0 <= j <= nc,
            nc == columns@.len(),
            row@.len() == j,
            forall|m: int| 0 <= m < j ==> row@[m]@ == spec_cell(columns@[m], *f),
        decreases nc - j,
    {
        let cell = render_cell(&columns[j], f);
        row.push(cell);
        j = j + 1;
    }
    row.push(f.name.clone());
    proof {
        assert forall|m: int| 0 <= m < row@.len() implies row.deep_view()[m] == spec_row_cells(
            columns@,
            *f,
        )[m] by {
            assert(row.deep_view()[m] == row@[m]@);
        }
        assert(row.deep_view() =~= spec_row_cells(columns@, *f));
    }
    row
}

/// Renders the header row.
fn render_header_row(columns: &Vec<crate::column::Column>) -> (r: Vec<String>)
    ensures
        r.deep_view() == spec_header_cells(columns@),
{
    let mut row: Vec<String> = Vec::new();
    let nc = columns.len();
    let mut j: usize = 0;
    while j < nc
        invariant
            0 <= j <= nc,
            nc == columns@.len(),
            row@.len() == j,
            forall|m: int| 0 <= m < j ==> row@[m]@ == crate::column::spec_header(columns@[m]),
        decreases nc - j,
    {
        let cell = String::from_str(columns[j].header());
        row.push(cell);
        j = j + 1;
    }
    row.push(String::from_str("Name"));
    proof {
        assert forall|m: int| 0 <= m < row@.len() implies row.deep_view()[m] == spec_header_cells(
            columns@,
        )[m] by {
            assert(row.deep_view()[m] == row@[m]@);
        }
        assert(row.deep_view() =~= spec_header_cells(columns@));
    }
    row
}

/// The widest cell of column `j` over the whole table.
fn measure_column(table: &Vec<Vec<String>>, j: usize) -> (r: usize)
    ensures
        r as int == spec_col_w(table.deep_view(), j as int, table.deep_view().len() as int),
{
    let mut w: usize = 0;
    let n = table.len();
    let mut i: usize = 0;
    while i < n
        invariant
            0 <= i <= n,
            n == table.deep_view().len(),
            w as int == spec_col_w(table.deep_view(), j as int, i as int),
        decreases n - i,
    {
        let row = &table[i];
        if j < row.len() {
            let cw = display_width(row[j].as_str());
            proof {
                assert(table.deep_view()[i as int][j as int] == row@[j as int]@);
            }
            if cw > w {
                w = cw;
            }
        } else {
            proof {
                assert(table.deep_view()[i as int].len() == row@.len());
            }
        }
        i = i + 1;
    }
    w
}

/// Renders the lines of a details table.
pub fn render_details(columns: &Vec<crate::column::Column>, header: bool, files: &Vec<File>) -> (r:
    Vec<String>)
    ensures
        r.deep_view() == spec_details_lines(columns@, header, files@),
{
    let ghost gtable = spec_table(columns@, header, files@);
    let mut table: Vec<Vec<String>> = Vec::new();
    if header {
        let row = render_header_row(columns);
        table.push(row);
    }
    let nf = files.len();
    let mut i: usize = 0;
    let ghost head: int = if header {
        1
    } else {
        0
    };
    while i < nf
        invariant
            0 <= i <= nf,
            nf == files@.len(),
            head == if header {
                1int
            } else {
                0int
            },
            gtable == spec_table(columns@, header, files@),
            gtable.len() == head + nf,
            table@.len() == head + i,
            forall|m: int| 0 <= m < head + i ==> table@[m].deep_view() == gtable[m],
        decreases nf - i,
    {
        let row = render_table_row(columns, &files[i]);
        table.push(row);
        proof {
            assert(gtable[head + i] == spec_row_cells(columns@, files@[i as int]));
        }
        i = i + 1;
    }
    proof {
        assert forall|m: int| 0 <= m < table@.len() implies table.deep_view()[m] == gtable[m] by {
            assert(table.deep_view()[m] == table@[m].deep_view());
        }
        assert(table.deep_view() =~= gtable);
    }
    let ghost gt = table.deep_view();
    // Measure each metadata column.
    let nc = columns.len();
    let mut widths: Vec<usize> = Vec::new();
    let mut j: usize = 0;
    while j < nc
        invariant
            0 <= j <= nc,
            nc == columns@.len(),
            gt == table.deep_view(),
            gt == gtable,
            widths@.len() == j,
            forall|m: int|
                0 <= m < j ==> widths@[m] as int == spec_col_w(gtable, m, gtable.len() as int),
        decreases nc - j,
    {
        let w = measure_column(&table, j);
        widths.push(w);
        j = j + 1;
    }
    // Render each row.
    let nr = table.len();
    let mut out: Vec<String> = Vec::new();
    let mut i2: usize = 0;
    while i2 < nr
        invariant
            0 <= i2 <= nr,
            nr == gtable.len(),
            gt == table.deep_view(),
            gt == gtable,
            table@.len() == nr,
            gtable == spec_table(columns@, header, files@),
            head == if header {
                1int
            } else {
                0int
            },
            nf == files@.len(),
            gtable.len() == head + nf,
            nc == columns@.len(),
            widths@.len() == nc,
            forall|m: int|
                0 <= m < nc ==> widths@[m] as int == spec_col_w(gtable, m, gtable.len() as int),
            out@.len() == i2,
            forall|m: int|
                0 <= m < i2 ==> out@[m]@ == spec_line_from(gtable[m], columns@, gtable, 0),
        decreases nr - i2,
    {
        proof {
            assert(table.deep_view()[i2 as int] == table@[i2 as int].deep_view());
            assert(gtable[i2 as int].len() == columns@.len() + 1) by {
                if i2 < head {
                    assert(gtable[i2 as int] == spec_header_cells(columns@));
                } else {
                    assert(gtable[i2 as int] == spec_row_cells(
                        columns@,
                        files@[i2 - head],
                    ));
                }
            }
            assert(table@[i2 as int]@.len() == table@[i2 as int].deep_view().len());
        }
        let line = render_detail_line(&table[i2], columns, &widths, Ghost(gtable));
        out.push(line);
        proof {
            assert(gtable[i2 as int] == table@[i2 as int].deep_view());
        }
        i2 = i2 + 1;
    }
    proof {
        assert forall|m: int| 0 <= m < out@.len() implies out.deep_view()[m]
            == spec_details_lines(columns@, header, files@)[m] by {
            assert(out.deep_view()[m] == out@[m]@);
        }
        assert(out.deep_view() =~= spec_details_lines(columns@, header, files@));
    }
    out
}

/// Renders one line of the table.
fn render_detail_line(
    row: &Vec<String>,
    columns: &Vec<crate::column::Column>,
    widths: &Vec<usize>,
    table: Ghost<Seq<Seq<Seq<char>>>>,
) -> (r: String)
    requires
        row@.len() == columns@.len() + 1,
        widths@.len() == columns@.len(),
        forall|m: int|
            0 <= m < widths@.len() ==> widths@[m] as int == spec_col_w(
                table@,
                m,
                table@.len() as int,
            ),
    ensures
        r@ == spec_line_from(row.deep_view(), columns@, table@, 0),
{
    let ghost grow = row.deep_view();
    let mut out = String::new();
    let nc = columns.len();
    let mut j: usize = 0;
    while j < nc
        invariant
            0 <= j <= nc,
            nc == columns@.len(),
            grow == row.deep_view(),
            grow.len() == nc + 1,
            widths@.len() == nc,
            forall|m: int|
                0 <= m < nc ==> widths@[m] as int == spec_col_w(table@, m, table@.len() as int),
            spec_line_from(grow, columns@, table@, 0) == out@ + spec_line_from(
                grow,
                columns@,
                table@,
                j as int,
            ),
        decreases nc - j,
    {
        let cell = &row[j];
        let cw = display_width(cell.as_str());
        let target = widths[j];
        let pad = if target >= cw {
            target - cw
        } else {
            0
        };
        let right = matches!(columns[j].alignment(), crate::column::Alignment::Right);
        proof {
            assert(grow[j as int] == row@[j as int]@);
        }
        if right {
            let sp = crate::text::spaces(pad);
            out.append(sp.as_str());
            out.append(cell.as_str());
        } else {
            out.append(cell.as_str());
            let sp = crate::text::spaces(pad);
            out.append(sp.as_str());
        }
        crate::fs::push_char(&mut out, ' ');
        proof {
            assert(spec_line_from(grow, columns@, table@, j as int) == pad_cell(
                grow[j as int],
                spec_col_w(table@, j as int, table@.len() as int),
                crate::column::spec_alignment(columns@[j as int]) is Right,
            ) + seq![' '] + spec_line_from(grow, columns@, table@, j + 1));
        }
        j = j + 1;
    }
    let name = &row[nc];
    out.append(name.as_str());
    proof {
        assert(grow[nc as int] == row@[nc as int]@);
        assert(spec_line_from(grow, columns@, table@, nc as int) == grow[nc as int]);
    }
    out
}

/// The name of each entry, one line each: the lines view.
pub open spec fn spec_lines_view(files: Seq<File>) -> Seq<Seq<char>> {
    Seq::new(files.len(), |i: int| files[i].name@)
}

/// Renders the lines view.
pub fn render_lines(files: &Vec<File>) -> (r: Vec<String>)
    ensures
        r.deep_view() == spec_lines_view(files@),
{
    let mut out: Vec<String> = Vec::new();
    let n = files.len();
    let mut i: usize = 0;
    while i < n
        invariant
            0 <= i <= n,
            n == files@.len(),
            out@.len() == i,
            forall|m: int| 0 <= m < i ==> out@[m]@ == files@[m].name@,
        decreases n - i,
    {
        out.push(files[i].name.clone());
        i = i + 1;
    }
    proof {
        assert forall|m: int| 0 <= m < out@.len() implies out.deep_view()[m] == spec_lines_view(
            files@,
        )[m] by {
            assert(out.deep_view()[m] == out@[m]@);
        }
        assert(out.deep_view() =~= spec_lines_view(files@));
    }
    out
}


/// The display widths of a set of texts.
fn string_widths(names: &Vec<String>) -> (r: Vec<usize>)
    ensures
        r@ == crate::grid::widths_of(names.deep_view()),
{
    let n = names.len();
    let mut out: Vec<usize> = Vec::new();
    let mut i: usize = 0;
    while i < n
        invariant
            0 <= i <= n,
            n == names@.len(),
            out@.len() == i,
            forall|m: int| 0 <= m < i ==> out@[m] as nat == str_width(names@[m]@),
        decreases n - i,
    {
        let w = display_width(names[i].as_str());
        out.push(w);
        i = i + 1;
    }
    proof {
        assert forall|m: int| 0 <= m < n implies out@[m] == crate::grid::widths_of(
            names.deep_view(),
        )[m] by {
            assert(names.deep_view()[m] == names@[m]@);
            assert(out@[m] as nat == str_width(names.deep_view()[m]));
        }
        assert(out@ =~= crate::grid::widths_of(names.deep_view()));
    }
    out
}

/// The details lines a configuration renders for one directory.
pub open spec fn spec_details_view(
    d: crate::output::Details,
    git_here: bool,
    files: Seq<File>,
) -> Seq<Seq<char>> {
    let cols = match d.columns {
        Option::Some(c) => crate::column::spec_columns_for(c, git_here),
        Option::None => Seq::empty(),
    };
    spec_details_lines(cols, d.header, files)
}

/// The lines the combined grid-details view renders: the files'
/// detail rows, packed as grid cells; when not even one column of
/// them fits, the view falls back to the plain details table.
pub open spec fn spec_grid_details_view(
    gd: crate::output::GridDetails,
    git_here: bool,
    files: Seq<File>,
) -> Seq<Seq<char>> {
    let cols = match gd.details.columns {
        Option::Some(c) => crate::column::spec_columns_for(c, git_here),
        Option::None => Seq::empty(),
    };
    let cells = spec_details_lines(cols, false, files);
    let ws = crate::grid::widths_of(cells);
    if cells.len() == 0 {
        Seq::empty()
    } else if crate::grid::grid_fits(
        ws,
        crate::grid::best_cols(ws, 2, gd.grid.console_width as int, gd.grid.across, ws.len() as int),
        2,
        gd.grid.console_width as int,
        gd.grid.across,
    ) {
        crate::grid::spec_grid_output(cells, ws, gd.grid.console_width as int, 2, gd.grid.across)
    } else {
        spec_details_lines(cols, gd.details.header, files)
    }
}

/// The grid lines a grid configuration renders.
pub open spec fn spec_grid_view(g: crate::output::Grid, files: Seq<File>) -> Seq<Seq<char>> {
    crate::grid::spec_grid_output(
        spec_lines_view(files),
        crate::grid::widths_of(spec_lines_view(files)),
        g.console_width as int,
        2,
        g.across,
    )
}

/// Whether the directory at hand resolved to a repository.
pub open spec fn spec_git_here(dir: Option<&crate::fs::Dir>) -> bool {
    match dir {
        Option::Some(d) => d.git,
        Option::None => false,
    }
}

impl crate::output::Lines {
    /// Shows each file on a line of its own, name only.
    pub fn view(&self, files: &Vec<File>) -> (r: Vec<String>)
        ensures
            r.deep_view() == spec_lines_view(files@),
    {
        render_lines(files)
    }
}

impl crate::output::Grid {
    /// Packs the names into the most columns that fit the width.
    pub fn view(&self, files: &Vec<File>) -> (r: Vec<String>)
        ensures
            r.deep_view() == spec_grid_view(*self, files@),
    {
        let names = render_lines(files);
        let ws = string_widths(&names);
        crate::grid::render_grid(&names, &ws, self.console_width, 2, self.across)
    }
}

impl crate::output::Details {
    /// Shows one line per file: the resolved metadata columns, then
    /// the name.
    pub fn view(&self, dir: Option<&crate::fs::Dir>, files: &Vec<File>) -> (r: Vec<String>)
        ensures
            r.deep_view() == spec_details_view(*self, spec_git_here(dir), files@),
    {
        let columns: Vec<crate::column::Column> = match &self.columns {
            Option::Some(c) => c.for_dir(dir),
            Option::None => Vec::new(),
        };
        proof {
            if self.columns is None {
                assert(columns@ =~= Seq::<crate::column::Column>::empty());
            }
        }
        render_details(&columns, self.header, files)
    }
}

impl crate::output::GridDetails {
    /// Runs the details column computation, then packs each file's
    /// detail row as one grid cell.  When not even one column fits,
    /// the rows come out one per line.
    pub fn view(&self, dir: Option<&crate::fs::Dir>, files: &Vec<File>) -> (r: Vec<String>)
        ensures
            r.deep_view() == spec_grid_details_view(*self, spec_git_here(dir), files@),
    {
        let columns: Vec<crate::column::Column> = match &self.details.columns {
            Option::Some(c) => c.for_dir(dir),
            Option::None => Vec::new(),
        };
        proof {
            if self.details.columns is None {
                assert(columns@ =~= Seq::<crate::column::Column>::empty());
            }
        }
        let cells = render_details(&columns, false, files);
        let ws = string_widths(&cells);
        if cells.len() == 0 {
            let out: Vec<String> = Vec::new();
            proof {
                assert(out.deep_view() =~= Seq::<Seq<char>>::empty());
            }
            return out;
        }
        match crate::grid::fit(&ws, self.grid.console_width, 2, self.grid.across) {
            Option::Some(layout) => {
                proof {
                    crate::grid::lemma_best_cols(
                        ws@,
                        2,
                        self.grid.console_width as int,
                        self.grid.across,
                        ws@.len() as int,
                        layout.columns as int,
                    );
                }
                crate::grid::render_grid(&cells, &ws, self.grid.console_width, 2, self.grid.across)
            },
            Option::None => {
                proof {
                    crate::grid::lemma_best_cols(
                        ws@,
                        2,
                        self.grid.console_width as int,
                        self.grid.across,
                        ws@.len() as int,
                        1,
                    );
                }
                render_details(&columns, self.details.header, files)
            },
        }
    }
}

/// One row of a tree rendering: how deep the entry sits, and the
/// entry itself.
#[derive(Debug, Clone)]
pub struct TreeRow {
    /// How many levels below the root the entry sits.
    pub depth: usize,
    /// The entry shown on this row.
    pub file: File,
}

/// The lines of a tree rendering: each entry's name, stepped in two
/// spaces for each level of depth.
pub open spec fn spec_tree_lines(rows: Seq<TreeRow>) -> Seq<Seq<char>> {
    Seq::new(
        rows.len(),
        |i: int| spaces_seq(2 * rows[i].depth as int) + rows[i].file.name@,
    )
}

impl crate::output::Details {
    /// The tree form of the view: nesting is drawn inline by
    /// stepping each row in with its depth.  The caller walks the
    /// tree and hands the rows over in the order they are shown.
    pub fn view_tree(&self, rows: &Vec<TreeRow>) -> (r: Vec<String>)
        requires
            forall|i: int| 0 <= i < rows@.len() ==> rows@[i].depth <= usize::MAX / 2,
        ensures
            r.deep_view() == spec_tree_lines(rows@),
    {
        let n = rows.len();
        let mut out: Vec<String> = Vec::new();
        let mut i: usize = 0;
        while i < n
            invariant
                0 <= i <= n,
                n == rows@.len(),
                forall|m: int| 0 <= m < n ==> rows@[m].depth <= usize::MAX / 2,
                out@.len() == i,
                forall|m: int|
                    0 <= m < i ==> out@[m]@ == spaces_seq(2 * rows@[m].depth as int)
                        + rows@[m].file.name@,
            decreases n - i,
        {
            let row = &rows[i];
            let mut line = crate::text::spaces(2 * row.depth);
            line.append(row.file.name.as_str());
            out.push(line);
            i = i + 1;
        }
        proof {
            assert forall|m: int| 0 <= m < out@.len() implies out.deep_view()[m]
                == spec_tree_lines(rows@)[m] by {
                assert(out.deep_view()[m] == out@[m]@);
            }
            assert(out.deep_view() =~= spec_tree_lines(rows@));
        }
        out
    }
}

} // verus!
