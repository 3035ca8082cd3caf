use vstd::prelude::*;
use crate::column::{join_parts, lemma_join_parts_push, SubstitutionColumn};
use crate::error::PDFJsonError;

verus! {

/// Number of lesson-block row groups a substitution table is read in.
pub const LESSON_GROUPS: usize = 5;

/// A row ends a row group when its first cell starts with `-`.
pub open spec fn is_separator(row: Seq<Seq<char>>) -> bool {
    row.len() > 0 && row[0].len() > 0 && row[0][0] == '-'
}

/// Index of the first separator row at or after `from`, or the table length
/// when there is none.
pub open spec fn first_separator(t: Seq<Seq<Seq<char>>>, from: int) -> int
    decreases t.len() - from,
{
    if from >= t.len() {
        t.len() as int
    } else if is_separator(t[from]) {
        from
    } else {
        first_separator(t, from + 1)
    }
}

/// First row of row group `g`: row 1 for the first group, else the row after
/// the previous group's separator.
pub open spec fn group_start(t: Seq<Seq<Seq<char>>>, g: nat) -> int
    decreases g,
{
    if g == 0 {
        1
    } else {
        first_separator(t, group_start(t, (g - 1) as nat)) + 1
    }
}

/// The separator row that closes row group `g`.
pub open spec fn group_end(t: Seq<Seq<Seq<char>>>, g: nat) -> int {
    first_separator(t, group_start(t, g))
}

/// The class names of a table: the header cells after the first.
pub open spec fn class_names(t: Seq<Seq<Seq<char>>>) -> Seq<Seq<char>> {
    t[0].subrange(1, t[0].len() as int)
}

/// A table has the expected shape: a header with a label cell, five row groups
/// each closed by a separator row, and every row of those groups exactly as
/// wide as the header.
pub open spec fn well_shaped(t: Seq<Seq<Seq<char>>>) -> bool {
    &&& t.len() >= 1
    &&& t[0].len() >= 1
    &&& group_end(t, (LESSON_GROUPS - 1) as nat) < t.len()
    &&& forall|r: int| 1 <= r <= group_end(t, (LESSON_GROUPS - 1) as nat) ==> #[trigger] t[r].len() == t[0].len()
}

/// The cells of `row` that lie in a column of class `c`, among the first `n`
/// class columns, left to right.
pub open spec fn row_cells_for(row: Seq<Seq<char>>, names: Seq<Seq<char>>, c: Seq<char>, n: int) -> Seq<Seq<char>>
    decreases n,
{
    if n <= 0 {
        seq![]
    } else if names[n - 1] == c {
        row_cells_for(row, names, c, n - 1).push(row[n])
    } else {
        row_cells_for(row, names, c, n - 1)
    }
}

/// The cells of class `c` in rows `lo` up to (not including) `hi`, row by row.
pub open spec fn cells_between(t: Seq<Seq<Seq<char>>>, c: Seq<char>, lo: int, hi: int) -> Seq<Seq<char>>
    decreases hi - lo,
{
    if hi <= lo {
        seq![]
    } else {
        cells_between(t, c, lo, hi - 1) + row_cells_for(t[hi - 1], class_names(t), c, class_names(t).len() as int)
    }
}

/// The cells of class `c` in row group `g`, separator row included.
pub open spec fn block_cells(t: Seq<Seq<Seq<char>>>, c: Seq<char>, g: nat) -> Seq<Seq<char>> {
    cells_between(t, c, group_start(t, g), group_end(t, g) + 1)
}

/// The lesson blocks of class `c`: block `g` joins the non-empty cells of row
/// group `g`; the sixth block is never filled from a table.
pub open spec fn column_of(t: Seq<Seq<Seq<char>>>, c: Seq<char>) -> Seq<Option<Seq<char>>> {
    Seq::new(6, |g: int| if g < LESSON_GROUPS { join_parts(block_cells(t, c, g as nat)) } else { None })
}

/// What a table says: each class name of its header mapped to its lesson blocks.
pub open spec fn table_map(t: Seq<Seq<Seq<char>>>) -> Map<Seq<char>, Seq<Option<Seq<char>>>> {
    Map::new(|c: Seq<char>| class_names(t).contains(c), |c: Seq<char>| column_of(t, c))
}

/// The class entries of a list of (class name, column) pairs.
pub open spec fn entries_view(v: Seq<(String, SubstitutionColumn)>) -> Seq<(Seq<char>, Seq<Option<Seq<char>>>)> {
    v.map_values(|e: (String, SubstitutionColumn)| (e.0@, e.1@))
}

/// No class name occurs twice.
pub open spec fn keys_unique(s: Seq<(Seq<char>, Seq<Option<Seq<char>>>)>) -> bool {
    forall|i: int, j: int| 0 <= i < s.len() && 0 <= j < s.len() && i != j ==> s[i].0 != s[j].0
}

/// The map from class name to column that a list of entries describes; a
/// later entry for a name replaces an earlier one.
pub open spec fn entries_map(s: Seq<(Seq<char>, Seq<Option<Seq<char>>>)>) -> Map<Seq<char>, Seq<Option<Seq<char>>>>
    decreases s.len(),
{
    if s.len() == 0 {
        Map::empty()
    } else {
        entries_map(s.drop_last()).insert(s.last().0, s.last().1)
    }
}

proof fn lemma_first_separator(t: Seq<Seq<Seq<char>>>, from: int)
    requires
        0 <= from,
    ensures
        first_separator(t, from) <= t.len(),
        from <= t.len() ==> from <= first_separator(t, from),
        first_separator(t, from) < t.len() ==> is_separator(t[first_separator(t, from)]),
        forall|r: int| from <= r < first_separator(t, from) ==> !is_separator(#[trigger] t[r]),
    decreases t.len() - from,
{
    if from < t.len() && !is_separator(t[from]) {
        lemma_first_separator(t, from + 1);
    }
}

proof fn lemma_groups_ordered(t: Seq<Seq<Seq<char>>>, g: nat, h: nat)
    requires
        g < h,
    ensures
        group_end(t, g) < group_start(t, h),
    decreases h,
{
    lemma_group_start_pos(t, g);
    lemma_first_separator(t, group_start(t, g));
    if g + 1 < h {
        lemma_groups_ordered(t, g, (h - 1) as nat);
        lemma_group_start_pos(t, (h - 1) as nat);
        lemma_first_separator(t, group_start(t, (h - 1) as nat));
    }
}

proof fn lemma_group_start_pos(t: Seq<Seq<Seq<char>>>, g: nat)
    ensures
        group_start(t, g) >= 1,
    decreases g,
{
    if g > 0 {
        lemma_group_start_pos(t, (g - 1) as nat);
        lemma_first_separator(t, group_start(t, (g - 1) as nat));
    }
}


/// Whether a cell text starts with the separator character `-`.
fn starts_with_dash(cell: &String) -> (r: bool)
    ensures
        r == (cell@.len() > 0 && cell@[0] == '-'),
{
    cell.as_str().unicode_len() > 0 && cell.as_str().get_char(0) == '-'
}

/// Checks the shape of a table and finds its five row groups, as pairs of
/// first row and separator row.
pub fn group_bounds(table: &Vec<Vec<String>>) -> (r: Result<Vec<(usize, usize)>, PDFJsonError>)
    ensures
        r is Ok <==> well_shaped(table.deep_view()),
        r matches Err(e) ==> e == PDFJsonError::MalformedTable,
        r matches Ok(b) ==> b.len() == LESSON_GROUPS && forall|g: int|
            0 <= g < LESSON_GROUPS ==> (#[trigger] b@[g]).0 == group_start(table.deep_view(), g as nat)
                && b@[g].1 == group_end(table.deep_view(), g as nat),
{
    let ghost t = table.deep_view();
    if table.len() == 0 {
        return Err(PDFJsonError::MalformedTable);
    }
    let width = table[0].len();
    if width == 0 {
        assert(t[0].len() == 0);
        return Err(PDFJsonError::MalformedTable);
    }
    let mut bounds: Vec<(usize, usize)> = Vec::new();
    let mut row: usize = 1;
    let mut g: usize = 0;
    while g < LESSON_GROUPS
        invariant
            t == table.deep_view(),
            table.len() >= 1,
            width == t[0].len(),
            width >= 1,
            g <= LESSON_GROUPS,
            bounds.len() == g,
            row as int == group_start(t, g as nat),
            1 <= row <= table.len(),
            forall|h: int| 0 <= h < g ==> (#[trigger] bounds@[h]).0 == group_start(t, h as nat)
                && bounds@[h].1 == group_end(t, h as nat),
            forall|r: int| 1 <= r < row ==> #[trigger] t[r].len() == width,
        decreases LESSON_GROUPS - g,
    {
        let start = row;
        proof {
            lemma_first_separator(t, start as int);
        }
        loop
            invariant
                t == table.deep_view(),
                width == t[0].len(),
                width >= 1,
                g < LESSON_GROUPS,
                start as int == group_start(t, g as nat),
                1 <= start <= row <= table.len(),
                forall|r: int| start <= r < row ==> !is_separator(#[trigger] t[r]),
                forall|r: int| 1 <= r < row ==> #[trigger] t[r].len() == width,
                start <= first_separator(t, start as int) <= t.len(),
                first_separator(t, start as int) < t.len() ==> is_separator(t[first_separator(t, start as int)]),
                forall|r: int| start <= r < first_separator(t, start as int) ==> !is_separator(#[trigger] t[r]),
            ensures
                start <= row < table.len(),
                is_separator(t[row as int]),
                forall|r: int| start <= r < row ==> !is_separator(#[trigger] t[r]),
                forall|r: int| 1 <= r <= row ==> #[trigger] t[r].len() == width,
            decreases table.len() - row,
        {
            if row >= table.len() {
                proof {
                    assert(group_end(t, g as nat) == t.len());
                    lemma_group_end_last(t, g as nat);
                }
                return Err(PDFJsonError::MalformedTable);
            }
            assert(t[row as int] == table@[row as int].deep_view());
            if table[row].len() != width {
                proof {
                    assert(row <= first_separator(t, start as int));
                    lemma_group_end_last(t, g as nat);
                    assert(t[row as int].len() != width);
                }
                return Err(PDFJsonError::MalformedTable);
            }
            assert(t[row as int][0] == table@[row as int]@[0]@);
            if starts_with_dash(&table[row][0]) {
                assert(is_separator(t[row as int]));
                break;
            }
            row = row + 1;
        }
        assert(row as int == group_end(t, g as nat)) by {
            if (row as int) < first_separator(t, start as int) {
                assert(!is_separator(t[row as int]));
            }
        }
        bounds.push((start, row));
        row = row + 1;
        g = g + 1;
    }
    proof {
        assert(group_end(t, (LESSON_GROUPS - 1) as nat) == bounds@[4].1);
    }
    Ok(bounds)
}

/// The last group ends no earlier than any other.
proof fn lemma_group_end_last(t: Seq<Seq<Seq<char>>>, g: nat)
    requires
        g < LESSON_GROUPS,
    ensures
        group_end(t, g) <= group_end(t, (LESSON_GROUPS - 1) as nat),
{
    lemma_group_start_pos(t, g);
    lemma_first_separator(t, group_start(t, g));
    if g < LESSON_GROUPS - 1 {
        lemma_groups_ordered(t, g, (LESSON_GROUPS - 1) as nat);
        lemma_group_start_pos(t, (LESSON_GROUPS - 1) as nat);
        lemma_first_separator(t, group_start(t, (LESSON_GROUPS - 1) as nat));
    }
}


/// The text of each string of a list.
pub open spec fn texts(v: Seq<String>) -> Seq<Seq<char>> {
    v.map_values(|s: String| s@)
}

/// Whether `names` holds a string with the same text as `name`.
pub fn contains_name(names: &Vec<String>, name: &String) -> (r: bool)
    ensures
        r == texts(names@).contains(name@),
{
    let mut i: usize = 0;
    while i < names.len()
        invariant
            i <= names.len(),
            forall|k: int| 0 <= k < i ==> (#[trigger] names@[k])@ != name@,
        decreases names.len() - i,
    {
        if names[i] == *name {
            assert(texts(names@)[i as int] == name@);
            return true;
        }
        i = i + 1;
    }
    proof {
        if texts(names@).contains(name@) {
            let k = choose|k: int| 0 <= k < texts(names@).len() && texts(names@)[k] == name@;
            assert(names@[k]@ == name@);
        }
    }
    false
}

/// The class names of a header row, each once, in order of first appearance.
pub fn distinct_classes(header: &Vec<String>) -> (r: Vec<String>)
    requires
        header.len() >= 1,
    ensures
        texts(r@).no_duplicates(),
        forall|c: Seq<char>|
            texts(r@).contains(c) <==> texts(header@).subrange(1, header.len() as int).contains(c),
{
    let mut names: Vec<String> = Vec::new();
    let mut j: usize = 1;
    while j < header.len()
        invariant
            1 <= j <= header.len(),
            texts(names@).no_duplicates(),
            forall|c: Seq<char>|
                texts(names@).contains(c) <==> texts(header@).subrange(1, j as int).contains(c),
        decreases header.len() - j,
    {
        let ghost old_names = texts(names@);
        let ghost h = texts(header@);
        assert(h[j as int] == header@[j as int]@);
        if !contains_name(&names, &header[j]) {
            let name = header[j].clone();
            names.push(name);
            assert(texts(names@) =~= old_names.push(h[j as int]));
            assert forall|c: Seq<char>| texts(names@).contains(c) <==> (old_names.contains(c) || c == h[j as int]) by {
                if old_names.contains(c) {
                    let k = choose|k: int| 0 <= k < old_names.len() && #[trigger] old_names[k] == c;
                    assert(texts(names@)[k] == c);
                }
                if c == h[j as int] {
                    assert(texts(names@)[old_names.len() as int] == c);
                }
                if texts(names@).contains(c) {
                    let k = choose|k: int| 0 <= k < texts(names@).len() && #[trigger] texts(names@)[k] == c;
                    if k < old_names.len() {
                        assert(old_names[k] == c);
                    }
                }
            }
        } else {
            assert(texts(names@) == old_names);
            assert(old_names.contains(h[j as int]));
        }
        assert(forall|c: Seq<char>| texts(names@).contains(c) <==> (old_names.contains(c) || c == h[j as int]));
        assert forall|c: Seq<char>|
            texts(names@).contains(c) <==> h.subrange(1, j + 1).contains(c) by {
            assert(old_names.contains(c) <==> h.subrange(1, j as int).contains(c));
            assert(texts(names@).contains(c) <==> (old_names.contains(c) || c == h[j as int]));
            if h.subrange(1, j as int).contains(c) {
                let k = choose|k: int| 0 <= k < h.subrange(1, j as int).len() && #[trigger] h.subrange(1, j as int)[k] == c;
                assert(h.subrange(1, j + 1)[k] == c);
            }
            if h.subrange(1, j + 1).contains(c) {
                let k = choose|k: int| 0 <= k < h.subrange(1, j + 1).len() && #[trigger] h.subrange(1, j + 1)[k] == c;
                if k < j - 1 {
                    assert(h.subrange(1, j as int)[k] == c);
                } else {
                    assert(c == h[j as int]);
                }
            }
            if c == h[j as int] {
                assert(h.subrange(1, j + 1)[j - 1] == c);
            }
        }
        j = j + 1;
    }
    names
}

/// The lesson blocks of class `name` in a well-shaped table whose row groups
/// are `bounds`.
pub fn build_column(table: &Vec<Vec<String>>, bounds: &Vec<(usize, usize)>, name: &String) -> (r: SubstitutionColumn)
    requires
        well_shaped(table.deep_view()),
        bounds.len() == LESSON_GROUPS,
        forall|g: int|
            0 <= g < LESSON_GROUPS ==> (#[trigger] bounds@[g]).0 == group_start(table.deep_view(), g as nat)
                && bounds@[g].1 == group_end(table.deep_view(), g as nat),
    ensures
        r@ == column_of(table.deep_view(), name@),
{
    let ghost t = table.deep_view();
    let ghost c = name@;
    let ghost names = class_names(t);
    let width = table[0].len();
    assert(t[0].len() == width);
    let mut col = SubstitutionColumn::new();
    let mut g: usize = 0;
    while g < LESSON_GROUPS
        invariant
            t == table.deep_view(),
            c == name@,
            names == class_names(t),
            well_shaped(t),
            width == t[0].len(),
            bounds.len() == LESSON_GROUPS,
            forall|h: int|
                0 <= h < LESSON_GROUPS ==> (#[trigger] bounds@[h]).0 == group_start(t, h as nat)
                    && bounds@[h].1 == group_end(t, h as nat),
            g <= LESSON_GROUPS,
            col@.len() == 6,
            forall|h: int|
                0 <= h < 6 ==> #[trigger] col@[h] == if h < g { join_parts(block_cells(t, c, h as nat)) } else { None },
        decreases LESSON_GROUPS - g,
    {
        let lo = bounds[g].0;
        let hi = bounds[g].1;
        proof {
            lemma_group_start_pos(t, g as nat);
            lemma_group_end_last(t, g as nat);
            lemma_first_separator(t, lo as int);
        }
        let mut r = lo;
        while r <= hi
            invariant
                t == table.deep_view(),
                c == name@,
                names == class_names(t),
                well_shaped(t),
                width == t[0].len(),
                1 <= lo <= r <= hi + 1,
                hi <= group_end(t, (LESSON_GROUPS - 1) as nat),
                g < LESSON_GROUPS,
                col@.len() == 6,
                forall|h: int|
                    0 <= h < 6 && h != g ==> #[trigger] col@[h] == if h < g { join_parts(block_cells(t, c, h as nat)) } else { None },
                col@[g as int] == join_parts(cells_between(t, c, lo as int, r as int)),
            decreases hi + 1 - r,
        {
            assert(t[r as int].len() == width);
            let mut j: usize = 0;
            while j + 1 < width
                invariant
                    t == table.deep_view(),
                    c == name@,
                    names == class_names(t),
                    width == t[0].len(),
                    width == t[r as int].len(),
                    r < table.len(),
                    j + 1 <= width,
                    g < LESSON_GROUPS,
                    col@.len() == 6,
                    forall|h: int|
                        0 <= h < 6 && h != g ==> #[trigger] col@[h] == if h < g { join_parts(block_cells(t, c, h as nat)) } else { None },
                    col@[g as int] == join_parts(
                        cells_between(t, c, lo as int, r as int) + row_cells_for(t[r as int], names, c, j as int),
                    ),
                decreases width - j,
            {
                let ghost before = cells_between(t, c, lo as int, r as int) + row_cells_for(t[r as int], names, c, j as int);
                assert(names[j as int] == table@[0]@[j + 1]@);
                if table[0][j + 1] == *name {
                    let cell = table[r][j + 1].as_str();
                    assert(cell@ == t[r as int][j + 1]);
                    col.add_part(g, cell);
                    proof {
                        lemma_join_parts_push(before, cell@);
                        assert(cells_between(t, c, lo as int, r as int) + row_cells_for(t[r as int], names, c, j + 1)
                            =~= before.push(cell@));
                    }
                } else {
                    assert(row_cells_for(t[r as int], names, c, j + 1) == row_cells_for(t[r as int], names, c, j as int));
                }
                j = j + 1;
            }
            assert(cells_between(t, c, lo as int, r + 1) == cells_between(t, c, lo as int, r as int)
                + row_cells_for(t[r as int], names, c, names.len() as int));
            r = r + 1;
        }
        assert(col@[g as int] == join_parts(block_cells(t, c, g as nat)));
        g = g + 1;
    }
    assert(col@ =~= column_of(t, c));
    col
}

/// With unique names, the map of a list of entries holds exactly their
/// names, each with its own column.
pub proof fn lemma_entries_map(s: Seq<(Seq<char>, Seq<Option<Seq<char>>>)>)
    requires
        keys_unique(s),
    ensures
        forall|c: Seq<char>|
            #[trigger] entries_map(s).contains_key(c) <==> exists|i: int| 0 <= i < s.len() && s[i].0 == c,
        forall|i: int| 0 <= i < s.len() ==> entries_map(s)[(#[trigger] s[i]).0] == s[i].1,
    decreases s.len(),
{
    if s.len() > 0 {
        let p = s.drop_last();
        assert(keys_unique(p)) by {
            assert forall|i: int, j: int| 0 <= i < p.len() && 0 <= j < p.len() && i != j implies p[i].0 != p[j].0 by {
                assert(p[i] == s[i] && p[j] == s[j]);
            }
        }
        lemma_entries_map(p);
        assert forall|c: Seq<char>|
            #[trigger] entries_map(s).contains_key(c) <==> exists|i: int| 0 <= i < s.len() && s[i].0 == c by {
            if entries_map(p).contains_key(c) {
                let i = choose|i: int| 0 <= i < p.len() && p[i].0 == c;
                assert(s[i].0 == c);
            }
            if exists|i: int| 0 <= i < s.len() && s[i].0 == c {
                let i = choose|i: int| 0 <= i < s.len() && s[i].0 == c;
                if i < s.len() - 1 {
                    assert(p[i].0 == c);
                }
            }
        }
        assert forall|i: int| 0 <= i < s.len() implies entries_map(s)[(#[trigger] s[i]).0] == s[i].1 by {
            if i < s.len() - 1 {
                assert(p[i] == s[i]);
                assert(s[i].0 != s[s.len() - 1].0);
            }
        }
    }
}

} // verus!
