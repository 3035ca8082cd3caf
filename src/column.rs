use vstd::prelude::*;

verus! {

/// The text of an optional string, as a sequence of characters.
pub open spec fn opt_text(o: Option<String>) -> Option<Seq<char>> {
    match o {
        Some(s) => Some(s@),
        None => None,
    }
}

/// Adds one table cell to a lesson block: an empty cell changes nothing, the
/// first non-empty cell becomes the text, later ones are appended after a newline.
pub open spec fn join_step(acc: Option<Seq<char>>, cell: Seq<char>) -> Option<Seq<char>> {
    if cell.len() == 0 {
        acc
    } else {
        match acc {
            Some(a) => Some(a + seq!['\n'] + cell),
            None => Some(cell),
        }
    }
}

/// The lesson block text made of a sequence of cells, in order.
pub open spec fn join_parts(cells: Seq<Seq<char>>) -> Option<Seq<char>>
    decreases cells.len(),
{
    if cells.len() == 0 {
        None
    } else {
        join_step(join_parts(cells.drop_last()), cells.last())
    }
}

/// Joining one more cell is one more `join_step`.
pub proof fn lemma_join_parts_push(cells: Seq<Seq<char>>, cell: Seq<char>)
    ensures
        join_parts(cells.push(cell)) == join_step(join_parts(cells), cell),
{
    assert(cells.push(cell).drop_last() =~= cells);
}

/// Number of lesson blocks a class column holds.
pub const BLOCK_COUNT: usize = 6;

/// The substitutions of one class, one optional text per lesson block.
/// Does not include the class name.
#[derive(Debug, Clone, PartialEq, Eq, PartialOrd)]
pub struct SubstitutionColumn {
    pub block_0: Option<String>,
    pub block_1: Option<String>,
    pub block_2: Option<String>,
    pub block_3: Option<String>,
    pub block_4: Option<String>,
    pub block_5: Option<String>,
}

impl View for SubstitutionColumn {
    type V = Seq<Option<Seq<char>>>;

    open spec fn view(&self) -> Seq<Option<Seq<char>>> {
        seq![
            opt_text(self.block_0),
            opt_text(self.block_1),
            opt_text(self.block_2),
            opt_text(self.block_3),
            opt_text(self.block_4),
            opt_text(self.block_5),
        ]
    }
}

/// A column with no substitution in any block.
pub open spec fn empty_column() -> Seq<Option<Seq<char>>> {
    Seq::new(BLOCK_COUNT as nat, |i: int| None)
}

/// Adds `part` to `slot` as `join_step` says.
fn push_part(slot: &mut Option<String>, part: &str)
    ensures
        opt_text(*final(slot)) == join_step(opt_text(*old(slot)), part@),
{
    if part.unicode_len() == 0 {
        return;
    }
    match slot {
        Some(text) => {
            proof {
                reveal_strlit("\n");
            }
            text.append("\n");
            text.append(part);
        },
        None => {
            *slot = Some(part.to_string());
        },
    }
}

impl SubstitutionColumn {
    /// A column with no substitution in any block.
    pub fn new() -> (r: Self)
        ensures
            r@ == empty_column(),
    {
        let r = SubstitutionColumn {
            block_0: None,
            block_1: None,
            block_2: None,
            block_3: None,
            block_4: None,
            block_5: None,
        };
        assert(r@ =~= empty_column());
        r
    }

    /// The text of block `i`, if that block has a substitution.
    pub fn block(&self, i: usize) -> (r: Option<String>)
        requires
            i < BLOCK_COUNT,
        ensures
            opt_text(r) == self@[i as int],
    {
        match i {
            0 => self.block_0.clone(),
            1 => self.block_1.clone(),
            2 => self.block_2.clone(),
            3 => self.block_3.clone(),
            4 => self.block_4.clone(),
            _ => self.block_5.clone(),
        }
    }

    /// Adds one cell's text to block `i`: nothing when the cell is empty, the
    /// text itself when the block has none yet, else a newline and the text.
    pub fn add_part(&mut self, i: usize, part: &str)
        requires
            i < BLOCK_COUNT,
        ensures
            final(self)@ == old(self)@.update(i as int, join_step(old(self)@[i as int], part@)),
    {
        match i {
            0 => push_part(&mut self.block_0, part),
            1 => push_part(&mut self.block_1, part),
            2 => push_part(&mut self.block_2, part),
            3 => push_part(&mut self.block_3, part),
            4 => push_part(&mut self.block_4, part),
            _ => push_part(&mut self.block_5, part),
        }
        assert(final(self)@ =~= old(self)@.update(i as int, join_step(old(self)@[i as int], part@)));
    }
}

impl Default for SubstitutionColumn {
    fn default() -> (r: Self)
        ensures
            r@ == empty_column(),
    {
        Self::new()
    }
}

} // verus!
