//! The label table: one row per distinct label name, each with the offset it
//! resolves to and the place where it is defined, both filled in later.

use crate::ast::LabelId;
use crate::lexer::Span;
use vstd::prelude::*;

verus! {

/// A row of the label table as a mathematical value.
pub struct LabelEntry {
    pub name: Seq<char>,
    pub value: Option<i8>,
    pub span: Option<Span>,
}

/// No two rows share a name.
pub open spec fn names_unique(rows: Seq<LabelEntry>) -> bool {
    forall|i: int, j: int|
        0 <= i < rows.len() && 0 <= j < rows.len() && i != j ==> rows[i].name != rows[j].name
}

/// The row named `name`, if there is one.
pub open spec fn label_index(rows: Seq<LabelEntry>, name: Seq<char>) -> Option<int> {
    if exists|i: int| 0 <= i < rows.len() && rows[i].name == name {
        Some(choose|i: int| 0 <= i < rows.len() && rows[i].name == name)
    } else {
        None
    }
}

/// `rows` with the row that `id` names holding `span`.
pub open spec fn with_span(rows: Seq<LabelEntry>, id: int, span: Span) -> Seq<LabelEntry> {
    rows.update(id, LabelEntry { name: rows[id].name, value: rows[id].value, span: Some(span) })
}

/// `rows` with the row that `id` names holding `value`.
pub open spec fn with_value(rows: Seq<LabelEntry>, id: int, value: i8) -> Seq<LabelEntry> {
    rows.update(id, LabelEntry { name: rows[id].name, value: Some(value), span: rows[id].span })
}

pub open spec fn row_view(r: (String, Option<i8>, Option<Span>)) -> LabelEntry {
    LabelEntry { name: r.0@, value: r.1, span: r.2 }
}

/// Maps label names to stable ids; an id is the row's position and never changes.
pub struct LabelManager {
    map: Vec<(String, Option<i8>, Option<Span>)>,
}

impl View for LabelManager {
    type V = Seq<LabelEntry>;

    closed spec fn view(&self) -> Seq<LabelEntry> {
        self.map@.map_values(|r: (String, Option<i8>, Option<Span>)| row_view(r))
    }
}

/// If a row is named `name`, `label_index` finds that row.
pub proof fn lemma_label_index(rows: Seq<LabelEntry>, name: Seq<char>, i: int)
    requires
        names_unique(rows),
        0 <= i < rows.len(),
        rows[i].name == name,
    ensures
        label_index(rows, name) == Some(i),
{
}

impl LabelManager {
    pub open spec fn wf(&self) -> bool {
        names_unique(self@)
    }

    pub fn new() -> (r: LabelManager)
        ensures
            r@ == Seq::<LabelEntry>::empty(),
            r.wf(),
    {
        let r = LabelManager { map: Vec::new() };
        assert(r@ =~= Seq::<LabelEntry>::empty());
        r
    }

    pub fn len(&self) -> (r: usize)
        ensures
            r == self@.len(),
    {
        self.map.len()
    }

    /// The id of the row named `label`.
    pub fn get_id_of(&self, label: &str) -> (r: Option<LabelId>)
        requires
            self.wf(),
        ensures
            r matches Some(id) ==> label_index(self@, label@) == Some(id as int),
            r is None ==> label_index(self@, label@) is None,
    {
        let target = label.to_owned();
        let mut i: usize = 0;
        while i < self.map.len()
            invariant
                i <= self.map@.len(),
                self.wf(),
                target@ == label@,
                forall|j: int| 0 <= j < i ==> self@[j].name != label@,
            decreases self.map@.len() - i,
        {
            if self.map[i].0 == target {
                proof {
                    lemma_label_index(self@, label@, i as int);
                }
                return Some(i);
            }
            i += 1;
        }
        None
    }

    /// Adds a row for a label defined at `label_span`; fails if the name has a row.
    pub fn insert_unique(&mut self, label: &str, label_span: Span) -> (r: Result<LabelId, ()>)
        requires
            old(self).wf(),
        ensures
            final(self).wf(),
            label_index(old(self)@, label@) is Some ==> r is Err && final(self)@ == old(self)@,
            label_index(old(self)@, label@) is None ==> (r matches Ok(id) && id == old(self)@.len())
                && final(self)@ == old(self)@.push(
                LabelEntry { name: label@, value: None, span: Some(label_span) },
            ),
    {
        if self.get_id_of(label).is_some() {
            Err(())
        } else {
            self.map.push((label.to_owned(), None, Some(label_span)));
            let id = self.map.len() - 1;
            assert(self@ =~= old(self)@.push(
                LabelEntry { name: label@, value: None, span: Some(label_span) },
            ));
            Ok(id)
        }
    }

    /// The id of the row named `label`, adding a row with neither value nor
    /// span (a forward reference) if there is none.
    pub fn get_or_insert_reference(&mut self, label: &str) -> (r: LabelId)
        requires
            old(self).wf(),
        ensures
            final(self).wf(),
            label_index(old(self)@, label@) matches Some(id) ==> r == id && final(self)@
                == old(self)@,
            label_index(old(self)@, label@) is None ==> r == old(self)@.len() && final(self)@
                == old(self)@.push(LabelEntry { name: label@, value: None, span: None }),
    {
        if let Some(id) = self.get_id_of(label) {
            id
        } else {
            self.map.push((label.to_owned(), None, None));
            assert(self@ =~= old(self)@.push(LabelEntry { name: label@, value: None, span: None }));
            self.map.len() - 1
        }
    }

    /// Sets the offset that a label resolves to; fails if `id` names no row.
    pub fn set_value_of(&mut self, id: LabelId, value: i8) -> (r: Result<(), ()>)
        requires
            old(self).wf(),
        ensures
            final(self).wf(),
            r is Ok <==> id < old(self)@.len(),
            r is Ok ==> final(self)@ == with_value(old(self)@, id as int, value),
            r is Err ==> final(self)@ == old(self)@,
    {
        if id < self.map.len() {
            let name = self.map[id].0.clone();
            let span = self.map[id].2;
            self.map.set(id, (name, Some(value), span));
            assert(self@ =~= with_value(old(self)@, id as int, value));
            Ok(())
        } else {
            Err(())
        }
    }

    /// Sets the place where a label is defined; fails if `id` names no row.
    pub fn set_span_of(&mut self, id: LabelId, span: Span) -> (r: Result<(), ()>)
        requires
            old(self).wf(),
        ensures
            final(self).wf(),
            r is Ok <==> id < old(self)@.len(),
            r is Ok ==> final(self)@ == with_span(old(self)@, id as int, span),
            r is Err ==> final(self)@ == old(self)@,
    {
        if id < self.map.len() {
            let name = self.map[id].0.clone();
            let value = self.map[id].1;
            self.map.set(id, (name, value, Some(span)));
            assert(self@ =~= with_span(old(self)@, id as int, span));
            Ok(())
        } else {
            Err(())
        }
    }

    pub fn get_value_of(&self, id: LabelId) -> (r: Option<i8>)
        ensures
            r == (if id < self@.len() { self@[id as int].value } else { None }),
    {
        if id < self.map.len() {
            self.map[id].1
        } else {
            None
        }
    }

    pub fn get_span_of(&self, id: LabelId) -> (r: Option<Span>)
        ensures
            r == (if id < self@.len() { self@[id as int].span } else { None }),
    {
        if id < self.map.len() {
            self.map[id].2
        } else {
            None
        }
    }
}

} // verus!
