//! Choosing a CSV file and the columns that may be edited.
use vstd::prelude::*;

use crate::csv::backend::CsvFile;
use crate::paths::{file_name, path_file_name};
use crate::text::{decimal, push_decimal};

verus! {

/// Whether `c` has the Unicode White_Space property, the test `char::is_whitespace`
/// and `str::trim` apply: tab to carriage return, space, next line, no-break space,
/// ogham space mark, the spaces from en quad to hair space, line and paragraph
/// separators, narrow no-break space, medium mathematical space and ideographic space.
pub open spec fn is_white_space(c: char) -> bool {
    let u = c as u32;
    ||| 0x9 <= u <= 0xD
    ||| u == 0x20
    ||| u == 0x85
    ||| u == 0xA0
    ||| u == 0x1680
    ||| 0x2000 <= u <= 0x200A
    ||| u == 0x2028
    ||| u == 0x2029
    ||| u == 0x202F
    ||| u == 0x205F
    ||| u == 0x3000
}

/// Whether `c` is white space (`is_white_space`).
fn white_space(c: char) -> (r: bool)
    ensures
        r == is_white_space(c),
{
    let u = c as u32;
    (0x9 <= u && u <= 0xD) || u == 0x20 || u == 0x85 || u == 0xA0 || u == 0x1680 || (0x2000 <= u
        && u <= 0x200A) || u == 0x2028 || u == 0x2029 || u == 0x202F || u == 0x205F || u == 0x3000
}

/// Whether a typed file path is blank (empty, or white space only), as
/// `str::trim` followed by `str::is_empty` would find.
pub fn is_blank_entry(entry: &str) -> (r: bool)
    ensures
        r == forall|i: int| 0 <= i < entry@.len() ==> is_white_space(#[trigger] entry@[i]),
{
    let n = entry.unicode_len();
    let mut i: usize = 0;
    while i < n
        invariant
            n == entry@.len(),
            i <= n,
            forall|k: int| 0 <= k < i ==> is_white_space(#[trigger] entry@[k]),
        decreases n - i,
    {
        if !white_space(entry.get_char(i)) {
            return false;
        }
        i = i + 1;
    }
    true
}

/// The state of the column checkboxes: one per column, and "None".
pub struct FieldSelection {
    pub none_selected: bool,
    pub selected: Vec<bool>,
}

/// The indexes, in increasing order, of the checked entries among the first `n` of `checked`.
pub open spec fn checked_upto(checked: Seq<bool>, n: int) -> Seq<usize>
    decreases n,
{
    if n <= 0 {
        Seq::empty()
    } else {
        let r = checked_upto(checked, n - 1);
        if checked[n - 1] { r.push((n - 1) as usize) } else { r }
    }
}

/// The editable columns chosen: none when "None" is ticked, else the checked ones.
pub open spec fn chosen_columns_of(sel: FieldSelection) -> Seq<usize> {
    if sel.none_selected {
        Seq::empty()
    } else {
        checked_upto(sel.selected@, sel.selected@.len() as int)
    }
}

/// "None" ticked means no column is checked.
pub open spec fn selection_consistent(sel: FieldSelection) -> bool {
    sel.none_selected ==> forall|i: int| 0 <= i < sel.selected@.len() ==> !#[trigger] sel.selected@[i]
}

/// The text above the checkboxes.
pub open spec fn selection_intro_text(info: CsvFile) -> Seq<char> {
    let name = match path_file_name(info.path@) {
        Some(n) => n,
        None => Seq::empty(),
    };
    "File : "@ + name + "\nRows : "@ + decimal(info.row_count as nat) + "   Size : "@
        + decimal(info.size_bytes as nat)
        + " bytes\n\nCheck the columns you want to make editable:"@
}

/// The text above the checkboxes for the file `info`.
pub fn selection_intro(info: &CsvFile) -> (r: String)
    ensures
        r@ == selection_intro_text(*info),
{
    let mut s = String::from_str("File : ");
    match file_name(info.path.as_str()) {
        Some(n) => s.append(n.as_str()),
        None => {},
    }
    s.append("\nRows : ");
    push_decimal(&mut s, info.row_count as u64);
    s.append("   Size : ");
    push_decimal(&mut s, info.size_bytes);
    s.append(" bytes\n\nCheck the columns you want to make editable:");
    s
}

impl FieldSelection {
    /// Nothing ticked, for `n` columns.
    pub fn new(n: usize) -> (r: FieldSelection)
        ensures
            !r.none_selected,
            r.selected@.len() == n,
            forall|i: int| 0 <= i < n ==> !#[trigger] r.selected@[i],
    {
        let mut selected: Vec<bool> = Vec::new();
        let mut i: usize = 0;
        while i < n
            invariant
                i <= n,
                selected@.len() == i,
                forall|k: int| 0 <= k < i ==> !#[trigger] selected@[k],
            decreases n - i,
        {
            selected.push(false);
            i = i + 1;
        }
        FieldSelection { none_selected: false, selected }
    }

    /// The checkbox of column `i` changed to `checked`; checking a column clears "None".
    pub fn set_field(&mut self, i: usize, checked: bool)
        requires
            i < old(self).selected@.len(),
        ensures
            final(self).selected@ == old(self).selected@.update(i as int, checked),
            final(self).none_selected == (old(self).none_selected && !checked),
    {
        self.selected.set(i, checked);
        if checked {
            self.none_selected = false;
        }
    }

    /// The "None" checkbox changed to `checked`; ticking it clears every column.
    pub fn set_none(&mut self, checked: bool)
        ensures
            final(self).none_selected == checked,
            final(self).selected@.len() == old(self).selected@.len(),
            forall|i: int| 0 <= i < old(self).selected@.len() ==> #[trigger] final(self).selected@[i]
                == (!checked && old(self).selected@[i]),
    {
        self.none_selected = checked;
        if checked {
            let mut i: usize = 0;
            while i < self.selected.len()
                invariant
                    i <= self.selected@.len(),
                    self.selected@.len() == old(self).selected@.len(),
                    self.none_selected == checked,
                    checked,
                    forall|k: int| 0 <= k < i ==> !#[trigger] self.selected@[k],
                decreases self.selected@.len() - i,
            {
                self.selected.set(i, false);
                i = i + 1;
            }
        }
    }

    /// The editable columns chosen when pressing "Next".
    pub fn chosen_columns(&self) -> (r: Vec<usize>)
        ensures
            r@ == chosen_columns_of(*self),
    {
        let mut cols: Vec<usize> = Vec::new();
        if self.none_selected {
            return cols;
        }
        let mut i: usize = 0;
        while i < self.selected.len()
            invariant
                !self.none_selected,
                i <= self.selected@.len(),
                cols@ == checked_upto(self.selected@, i as int),
            decreases self.selected@.len() - i,
        {
            if self.selected[i] {
                cols.push(i);
            }
            i = i + 1;
        }
        cols
    }
}

/// The checked indexes are increasing and below `n`.
proof fn lemma_checked_upto_increasing(checked: Seq<bool>, n: int)
    requires
        0 <= n <= checked.len() <= usize::MAX,
    ensures
        forall|a: int, b: int|
            0 <= a < b < checked_upto(checked, n).len() ==> checked_upto(checked, n)[a]
                < checked_upto(checked, n)[b],
        forall|a: int| 0 <= a < checked_upto(checked, n).len() ==> checked_upto(checked, n)[a] < n,
        forall|a: int| 0 <= a < checked_upto(checked, n).len() ==> checked[checked_upto(checked, n)[a] as int],
    decreases n,
{
    if n > 0 {
        lemma_checked_upto_increasing(checked, n - 1);
        let r = checked_upto(checked, n - 1);
        if checked[n - 1] {
            assert forall|a: int| 0 <= a < r.len() implies r.push((n - 1) as usize)[a] == r[a] by {}
        }
    }
}

/// Every column is either chosen or not ticked: a ticked column (with "None" off) is chosen.
proof fn lemma_checked_upto_complete(checked: Seq<bool>, n: int, i: int)
    requires
        0 <= i < n <= checked.len() <= usize::MAX,
        checked[i],
    ensures
        checked_upto(checked, n).contains(i as usize),
    decreases n,
{
    if i < n - 1 {
        lemma_checked_upto_complete(checked, n - 1, i);
        let r = checked_upto(checked, n - 1);
        let w = choose|w: int| 0 <= w < r.len() && r[w] == i as usize;
        if checked[n - 1] {
            assert(r.push((n - 1) as usize)[w] == i as usize);
        }
    } else {
        let r = checked_upto(checked, n - 1);
        assert(r.push((n - 1) as usize)[r.len() as int] == i as usize);
    }
}

/// The checkboxes never show "None" together with a ticked column, whatever is
/// clicked; and the chosen editable columns are exactly the ticked ones, each
/// once, in increasing order.
pub proof fn lemma_selection_stays_consistent(sel: FieldSelection, after: FieldSelection, i: int, checked: bool)
    requires
        selection_consistent(sel),
        ({
            ||| (0 <= i < sel.selected@.len() && after.selected@ == sel.selected@.update(i, checked)
                && after.none_selected == (sel.none_selected && !checked))
            ||| (after.none_selected == checked && after.selected@.len() == sel.selected@.len()
                && forall|k: int| 0 <= k < sel.selected@.len() ==> #[trigger] after.selected@[k]
                == (!checked && sel.selected@[k]))
        }),
    ensures
        selection_consistent(after),
        forall|a: int, b: int|
            0 <= a < b < chosen_columns_of(after).len() ==> chosen_columns_of(after)[a]
                < chosen_columns_of(after)[b],
        forall|c: int|
            0 <= c < after.selected@.len() ==> (chosen_columns_of(after).contains(c as usize)
                <==> after.selected@[c] && !after.none_selected),
{
    let n = after.selected@.len() as int;
    assert(after.selected@.len() == after.selected.len());
    lemma_checked_upto_increasing(after.selected@, n);
    assert forall|c: int| 0 <= c < n implies (chosen_columns_of(after).contains(c as usize)
        <==> after.selected@[c] && !after.none_selected) by {
        if after.selected@[c] && !after.none_selected {
            lemma_checked_upto_complete(after.selected@, n, c);
        }
        if chosen_columns_of(after).contains(c as usize) {
            let w = choose|w: int| 0 <= w < chosen_columns_of(after).len() && chosen_columns_of(after)[w] == c as usize;
            assert(!after.none_selected);
        }
    }
}

} // verus!
