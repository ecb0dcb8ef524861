//! Where in a document a partial configuration is found: the `location`
//! attribute of the type that holds it.
use vstd::prelude::*;
use crate::text::same_text;

verus! {

/// An attribute of a type, in mathematical form.
pub enum MetaForm {
    /// `name = value`, with the text of `value` where it is a string literal.
    NameValue { name: Seq<char>, text: Option<Seq<char>> },
    /// An attribute of any other form.
    Other,
}

/// An attribute of a type.
#[derive(Debug)]
pub enum Meta {
    /// `name = value`, with the text of `value` where it is a string literal.
    NameValue { name: String, text: Option<String> },
    /// An attribute of any other form.
    Other,
}

impl View for Meta {
    type V = MetaForm;

    open spec fn view(&self) -> MetaForm {
        match self {
            Meta::NameValue { name, text } => MetaForm::NameValue {
                name: name@,
                text: match text {
                    Some(t) => Some(t@),
                    None => None,
                },
            },
            Meta::Other => MetaForm::Other,
        }
    }
}

/// The text that one attribute gives as location, if it gives one: it is
/// named `location` and its value is a string literal.
pub open spec fn location_in(meta: MetaForm) -> Option<Seq<char>> {
    match meta {
        MetaForm::NameValue { name, text } => if name == "location"@ {
            text
        } else {
            None
        },
        MetaForm::Other => None,
    }
}

/// The location that a sequence of attributes gives: that of the last
/// attribute that gives one.
pub open spec fn last_location(metas: Seq<MetaForm>) -> Option<Seq<char>>
    decreases metas.len(),
{
    if metas.len() == 0 {
        None
    } else {
        match location_in(metas.last()) {
            Some(text) => Some(text),
            None => last_location(metas.drop_last()),
        }
    }
}

/// The attributes of a sequence, in mathematical form.
pub open spec fn forms_of(metas: Seq<Meta>) -> Seq<MetaForm> {
    metas.map_values(|m: Meta| m@)
}

/// The location that the attributes of a type give, if any does.
pub fn location_of(metas: &Vec<Meta>) -> (r: Option<String>)
    ensures
        match r {
            Some(text) => last_location(forms_of(metas@)) == Some(text@),
            None => last_location(forms_of(metas@)) is None,
        },
{
    let n = metas.len();
    let mut location: Option<String> = None;
    let mut i: usize = 0;
    proof {
        assert(forms_of(metas@).take(0) =~= Seq::<MetaForm>::empty());
    }
    while i < n
        invariant
            n == metas@.len(),
            i <= n,
            match location {
                Some(text) => last_location(forms_of(metas@).take(i as int)) == Some(text@),
                None => last_location(forms_of(metas@).take(i as int)) is None,
            },
        decreases n - i,
    {
        proof {
            assert(forms_of(metas@).take(i + 1).drop_last() =~= forms_of(metas@).take(i as int));
            assert(forms_of(metas@).take(i + 1).last() == metas@[i as int]@);
        }
        match &metas[i] {
            Meta::NameValue { name, text } => {
                if same_text(name.as_str(), "location") {
                    match text {
                        Some(t) => {
                            location = Some(t.clone());
                        },
                        None => {},
                    }
                }
            },
            Meta::Other => {},
        }
        i += 1;
    }
    proof {
        assert(forms_of(metas@).take(n as int) =~= forms_of(metas@));
    }
    location
}

} // verus!
