//! Application state: the ordered field list a host UI owns, edits and
//! persists, with the editing operations the field-list editor needs.

use crate::layout::compute_layout;
use crate::layout::layout_matches;
use crate::layout::FieldSize;
use crate::layout::LayoutResult;
use crate::layout::MAX_FIELDS;
use vstd::prelude::*;

verus! {

/// The visualizer's persistent state: the declaration-ordered field list of
/// the structure being displayed.
pub struct TemplateApp {
    pub fields: Vec<FieldSize>,
}

impl Default for TemplateApp {
    /// The field list shown on first start: one 1-byte field and one 16-byte
    /// field.
    fn default() -> (r: Self)
        ensures
            r.fields@ =~= seq![FieldSize::U8, FieldSize::U128],
    {
        let mut fields: Vec<FieldSize> = Vec::new();
        fields.push(FieldSize::U8);
        fields.push(FieldSize::U128);
        TemplateApp { fields }
    }
}

impl TemplateApp {
    /// State restored from a persisted field list.
    pub fn from_fields(fields: Vec<FieldSize>) -> (r: Self)
        ensures
            r.fields@ == fields@,
    {
        TemplateApp { fields }
    }

    /// Layout of the current field list.
    pub fn layout(&self) -> (r: LayoutResult)
        requires
            self.fields@.len() <= MAX_FIELDS as int,
        ensures
            layout_matches(self.fields@, r),
    {
        compute_layout(self.fields.as_slice())
    }

    /// Append one field at the end of the declaration order.
    pub fn push_field(&mut self, f: FieldSize)
        ensures
            final(self).fields@ == old(self).fields@.push(f),
    {
        self.fields.push(f);
    }

    /// Remove the field at position `i`, shifting later fields up.
    pub fn remove_field(&mut self, i: usize)
        requires
            i < old(self).fields@.len(),
        ensures
            final(self).fields@ == old(self).fields@.remove(i as int),
    {
        self.fields.remove(i);
    }

    /// Replace the field at position `i` with `f`.
    pub fn set_field(&mut self, i: usize, f: FieldSize)
        requires
            i < old(self).fields@.len(),
        ensures
            final(self).fields@ == old(self).fields@.update(i as int, f),
    {
        self.fields[i] = f;
    }
}

} // verus!
