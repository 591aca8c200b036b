//! What the accessibility tree of another program shows.

use vstd::prelude::*;

verus! {

/// The control type of a button.
pub const CT_BUTTON: i32 = 50000;

/// The control type of an input box.
pub const CT_EDIT: i32 = 50004;

/// The control type of a list item.
pub const CT_LISTITEM: i32 = 50007;

/// The control type of plain text.
pub const CT_TEXT: i32 = 50020;

/// The control type of a document.
pub const CT_DOCUMENT: i32 = 50030;

/// An element of the tree.
pub struct Element {
    /// Its name.
    pub name: String,
    /// The number of its control type.
    pub control_type: i32,
    /// Whether it holds a value that can be read and set.
    pub has_value: bool,
}

/// The name of a control type, and a question mark for one that is of no interest here.
pub open spec fn named_type(ct: i32) -> Seq<char> {
    if ct == CT_BUTTON {
        "Button"@
    } else if ct == CT_EDIT {
        "Edit"@
    } else if ct == CT_TEXT {
        "Text"@
    } else if ct == CT_DOCUMENT {
        "Document"@
    } else if ct == CT_LISTITEM {
        "ListItem"@
    } else {
        "?"@
    }
}

/// The name of a control type, and a question mark for one that is of no interest here.
pub fn control_type_name(ct: i32) -> (r: &'static str)
    ensures
        r@ == named_type(ct),
{
    if ct == CT_BUTTON {
        "Button"
    } else if ct == CT_EDIT {
        "Edit"
    } else if ct == CT_TEXT {
        "Text"
    } else if ct == CT_DOCUMENT {
        "Document"
    } else if ct == CT_LISTITEM {
        "ListItem"
    } else {
        "?"
    }
}

/// The control types have the numbers that the system gives them, and each of interest its name.
pub proof fn law_control_types_are_named(ct: i32)
    ensures
        named_type(50000) == "Button"@,
        named_type(50004) == "Edit"@,
        named_type(50007) == "ListItem"@,
        named_type(50020) == "Text"@,
        named_type(50030) == "Document"@,
        ct != 50000 && ct != 50004 && ct != 50007 && ct != 50020 && ct != 50030 ==> named_type(ct)
            == "?"@,
{
}

} // verus!
