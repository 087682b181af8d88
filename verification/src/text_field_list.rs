//! The data and behavior of an editable list of text fields: the widget
//! that renders it lives in the application; the list edits — adding an
//! empty field, removing one — are decided and performed here.
use vstd::prelude::*;

verus! {

/// An editable list of text fields with an identity and optional hint
/// and button texts.
pub struct TextFieldList {
    id: String,
    list: Vec<String>,
    field_hint: Option<String>,
    add_button_text: Option<String>,
}

/// What one round of interaction with the list reported.
pub struct TextFieldListResponse {
    pub changed: bool,
}

impl Default for TextFieldListResponse {
    /// A response that reports no change.
    fn default() -> (r: Self)
        ensures
            !r.changed,
    {
        TextFieldListResponse { changed: false }
    }
}

impl TextFieldList {
    /// The list's identity.
    pub closed spec fn id_spec(&self) -> Seq<char> {
        self.id@
    }

    /// The list's identity, as the widget needs it.
    pub fn id(&self) -> (r: &String)
        ensures
            r@ == self.id_spec(),
    {
        &self.id
    }

    /// The fields' texts, in order.
    pub closed spec fn list_spec(&self) -> Seq<Seq<char>> {
        self.list@.map_values(|s: String| s@)
    }

    /// The hint shown in an empty field, if one was set.
    pub closed spec fn field_hint_spec(&self) -> Option<String> {
        self.field_hint
    }

    /// The label of the add button, if one was set.
    pub closed spec fn add_button_text_spec(&self) -> Option<String> {
        self.add_button_text
    }

    /// A list over the given fields, with no hint and the default button
    /// label.
    pub fn new(id: String, list: Vec<String>) -> (r: Self)
        ensures
            r.id_spec() == id@,
            r.list_spec() == list@.map_values(|s: String| s@),
            r.field_hint_spec() is None,
            r.add_button_text_spec() is None,
    {
        TextFieldList { id, list, field_hint: None, add_button_text: None }
    }

    /// Sets the hint shown in empty fields.
    pub fn with_field_hint(self, hint: String) -> (r: Self)
        ensures
            r.field_hint_spec() == Some(hint),
            r.id_spec() == self.id_spec(),
            r.list_spec() == self.list_spec(),
            r.add_button_text_spec() == self.add_button_text_spec(),
    {
        TextFieldList { field_hint: Some(hint), ..self }
    }

    /// Sets the label of the add button.
    pub fn with_add_button_text(self, text: String) -> (r: Self)
        ensures
            r.add_button_text_spec() == Some(text),
            r.id_spec() == self.id_spec(),
            r.list_spec() == self.list_spec(),
            r.field_hint_spec() == self.field_hint_spec(),
    {
        TextFieldList { add_button_text: Some(text), ..self }
    }

    /// The hint shown in empty fields, as the widget needs it.
    pub fn field_hint(&self) -> (r: &Option<String>)
        ensures
            *r == self.field_hint_spec(),
    {
        &self.field_hint
    }

    /// The label of the add button, as the widget needs it.
    pub fn add_button_text(&self) -> (r: &Option<String>)
        ensures
            *r == self.add_button_text_spec(),
    {
        &self.add_button_text
    }

    /// How many fields the list holds.
    pub fn len(&self) -> (r: usize)
        ensures
            r == self.list_spec().len(),
    {
        self.list.len()
    }

    /// A field's current text.
    pub fn field(&self, i: usize) -> (r: &String)
        requires
            i < self.list_spec().len(),
        ensures
            r@ == self.list_spec()[i as int],
    {
        &self.list[i]
    }

    /// Replaces a field's text, as an edit of that field does.
    pub fn set_field(&mut self, i: usize, text: String)
        requires
            i < old(self).list_spec().len(),
        ensures
            final(self).list_spec() == old(self).list_spec().update(i as int, text@),
            final(self).id_spec() == old(self).id_spec(),
            final(self).field_hint_spec() == old(self).field_hint_spec(),
            final(self).add_button_text_spec() == old(self).add_button_text_spec(),
    {
        let ghost t = text@;
        self.list.remove(i);
        self.list.insert(i, text);
        proof {
            assert(self.list@ =~= old(self).list@.update(i as int, self.list@[i as int]));
            assert(self.list@[i as int]@ == t);
            assert(self.list_spec() =~= old(self).list_spec().update(i as int, t));
        }
    }

    /// Appends an empty field, as the add button does.
    pub fn add_field(&mut self)
        ensures
            final(self).list_spec() == old(self).list_spec().push(Seq::<char>::empty()),
            final(self).id_spec() == old(self).id_spec(),
            final(self).field_hint_spec() == old(self).field_hint_spec(),
            final(self).add_button_text_spec() == old(self).add_button_text_spec(),
    {
        self.list.push(String::new());
        proof {
            assert(self.list_spec() =~= old(self).list_spec().push(Seq::<char>::empty()));
        }
    }

    /// Removes a field, as its remove button does.
    pub fn remove_field(&mut self, i: usize)
        requires
            i < old(self).list_spec().len(),
        ensures
            final(self).list_spec() == old(self).list_spec().remove(i as int),
            final(self).id_spec() == old(self).id_spec(),
            final(self).field_hint_spec() == old(self).field_hint_spec(),
            final(self).add_button_text_spec() == old(self).add_button_text_spec(),
    {
        self.list.remove(i);
        proof {
            assert(self.list_spec() =~= old(self).list_spec().remove(i as int));
        }
    }
}

} // verus!
