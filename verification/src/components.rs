//! The note-grid widget's editable state: a cursor over cells and the
//! set of placed notes. Painting the grid into a pixel buffer belongs
//! to the rendering layer outside this crate's core.

use vstd::prelude::*;

verus! {

use crate::drawing::Position;

/// A grid of cells with a selected cell and a set of placed notes,
/// addressed by signed cell coordinates.
pub struct GridComponent {
    pub position: Position,
    pub size: (usize, usize),
    pub cell_size: (usize, usize),
    pub color: (u8, u8, u8, u8),
    pub selected_cell: (i32, i32),
    pub notes: Vec<(i32, i32)>,
}

impl Clone for GridComponent {
    /// A copy with the same geometry, selection and notes.
    fn clone(&self) -> (r: GridComponent)
        ensures
            r.position == self.position,
            r.size == self.size,
            r.cell_size == self.cell_size,
            r.color == self.color,
            r.selected_cell == self.selected_cell,
            r.notes@ == self.notes@,
    {
        let mut notes: Vec<(i32, i32)> = Vec::new();
        let n = self.notes.len();
        for i in 0..n
            invariant
                n == self.notes@.len(),
                notes@ == self.notes@.take(i as int),
        {
            notes.push(self.notes[i]);
            assert(self.notes@.take(i + 1) =~= self.notes@.take(i as int).push(
                self.notes@[i as int],
            ));
        }
        proof {
            assert(self.notes@.take(n as int) =~= self.notes@);
        }
        GridComponent {
            position: self.position,
            size: self.size,
            cell_size: self.cell_size,
            color: self.color,
            selected_cell: self.selected_cell,
            notes,
        }
    }
}

impl GridComponent {
    /// An empty grid with the selection on the origin cell.
    pub fn new(
        position: Position,
        size: (usize, usize),
        cell_size: (usize, usize),
        color: (u8, u8, u8, u8),
    ) -> (r: GridComponent)
        ensures
            r.position == position,
            r.size == size,
            r.cell_size == cell_size,
            r.color == color,
            r.selected_cell.0 == 0 && r.selected_cell.1 == 0,
            r.notes@ =~= Seq::<(i32, i32)>::empty(),
    {
        GridComponent { position, size, cell_size, color, selected_cell: (0, 0), notes: Vec::new() }
    }

    /// Move the selection by the given cell offsets.
    pub fn move_selection(&mut self, dx: i32, dy: i32)
        requires
            i32::MIN <= old(self).selected_cell.0 + dx <= i32::MAX,
            i32::MIN <= old(self).selected_cell.1 + dy <= i32::MAX,
        ensures
            final(self).selected_cell.0 == old(self).selected_cell.0 + dx,
            final(self).selected_cell.1 == old(self).selected_cell.1 + dy,
            final(self).notes == old(self).notes,
            final(self).position == old(self).position,
            final(self).size == old(self).size,
            final(self).cell_size == old(self).cell_size,
            final(self).color == old(self).color,
    {
        let (x, y) = self.selected_cell;
        self.selected_cell = (x + dx, y + dy);
    }

    /// Toggle a note on the selected cell: remove its first occurrence
    /// if one is placed there, place one otherwise.
    pub fn toggle_note(&mut self)
        ensures
            final(self).notes@ == (match old(self).notes@.index_of_first(
                old(self).selected_cell,
            ) {
                Some(i) => old(self).notes@.remove(i),
                None => old(self).notes@.push(old(self).selected_cell),
            }),
            final(self).selected_cell == old(self).selected_cell,
            final(self).position == old(self).position,
            final(self).size == old(self).size,
            final(self).cell_size == old(self).cell_size,
            final(self).color == old(self).color,
    {
        let note_pos = self.selected_cell;
        let n = self.notes.len();
        let mut found: Option<usize> = None;
        for i in 0..n
            invariant
                n == self.notes@.len(),
                note_pos == self.selected_cell,
                match found {
                    Option::None => forall|j: int| 0 <= j < i ==> self.notes@[j] != note_pos,
                    Option::Some(k) => k < i && self.notes@[k as int] == note_pos && forall|
                        j: int,
                    |
                        0 <= j < k ==> self.notes@[j] != note_pos,
                },
        {
            let cell = self.notes[i];
            if cell.0 == note_pos.0 && cell.1 == note_pos.1 {
                match found {
                    Option::None => {
                        found = Some(i);
                    },
                    Option::Some(_) => {},
                }
            }
        }
        proof {
            old(self).notes@.index_of_first_ensures(note_pos);
        }
        match found {
            Option::Some(k) => {
                proof {
                    assert(old(self).notes@.contains(note_pos));
                    let idx = old(self).notes@.index_of_first(note_pos).unwrap();
                    assert(idx == k as int);
                }
                self.notes.remove(k);
            },
            Option::None => {
                proof {
                    assert(forall|j: int|
                        0 <= j < old(self).notes@.len() ==> old(self).notes@[j] != note_pos);
                    assert(!old(self).notes@.contains(note_pos));
                }
                self.notes.push(note_pos);
            },
        }
    }
}

} // verus!
