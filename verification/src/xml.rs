//! The XML event model the GraphML side works on: a SAX-style stream of
//! declaration, start, end, empty-element and text events, with attributes
//! as plain name/value pairs. Text is carried unescaped; the I/O shim around
//! the library owns XML tokenizing and escaping.

use vstd::prelude::*;
use crate::strutil::pair_find_idx;
use crate::strutil::lemma_pair_find_idx;
use crate::strutil::str_eq;

verus! {

/// One XML event.
#[derive(Debug, Clone, PartialEq)]
pub enum XmlEvent {
    /// The `<?xml ...?>` declaration.
    Decl,
    /// A start tag with its attributes.
    Start { name: String, attrs: Vec<(String, String)> },
    /// An end tag.
    End { name: String },
    /// An empty element (`<key ... />`).
    Empty { name: String, attrs: Vec<(String, String)> },
    /// Character data between tags, unescaped.
    Text { text: String },
}

/// Mathematical image of [`XmlEvent`].
#[verifier::ext_equal]
pub ghost enum XmlEventV {
    Decl,
    Start { name: Seq<char>, attrs: Seq<(Seq<char>, Seq<char>)> },
    End { name: Seq<char> },
    Empty { name: Seq<char>, attrs: Seq<(Seq<char>, Seq<char>)> },
    Text { text: Seq<char> },
}

impl View for XmlEvent {
    type V = XmlEventV;

    open spec fn view(&self) -> XmlEventV {
        match self {
            XmlEvent::Decl => XmlEventV::Decl,
            XmlEvent::Start { name, attrs } => XmlEventV::Start {
                name: name@,
                attrs: attrs.deep_view(),
            },
            XmlEvent::End { name } => XmlEventV::End { name: name@ },
            XmlEvent::Empty { name, attrs } => XmlEventV::Empty {
                name: name@,
                attrs: attrs.deep_view(),
            },
            XmlEvent::Text { text } => XmlEventV::Text { text: text@ },
        }
    }
}

impl DeepView for XmlEvent {
    type V = XmlEventV;

    open spec fn deep_view(&self) -> XmlEventV {
        self.view()
    }
}

/// The value of the first attribute named `k`, if any.
pub open spec fn spec_get_attribute(attrs: Seq<(Seq<char>, Seq<char>)>, k: Seq<char>) -> Option<
    Seq<char>,
> {
    let j = pair_find_idx(attrs, k);
    if j < 0 {
        Option::None
    } else {
        Option::Some(attrs[j].1)
    }
}

/// Select an attribute by name.
pub fn get_attribute(attrs: &Vec<(String, String)>, search_term: &str) -> (r: Option<String>)
    ensures
        r is Some <==> spec_get_attribute(attrs.deep_view(), search_term@) is Some,
        r matches Some(v) ==> spec_get_attribute(attrs.deep_view(), search_term@) == Some(v@),
{
    let ghost av = attrs.deep_view();
    proof {
        lemma_pair_find_idx(av, search_term@);
    }
    let n = attrs.len();
    let mut i: usize = 0;
    while i < n
        invariant
            0 <= i <= n,
            n == attrs@.len(),
            av == attrs.deep_view(),
            forall|j: int| 0 <= j < i ==> (#[trigger] av[j]).0 != search_term@,
        decreases n - i,
    {
        if str_eq(attrs[i].0.as_str(), search_term) {
            proof {
                assert(av[i as int].0 == search_term@);
                assert(pair_find_idx(av, search_term@) == i as int);
            }
            return Some(attrs[i].1.clone());
        }
        i = i + 1;
    }
    proof {
        assert(pair_find_idx(av, search_term@) < 0);
    }
    None
}

} // verus!
