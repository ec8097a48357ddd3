//! Properties common to the objects of an FBX document.
use vstd::prelude::*;

use crate::text::{find_chars, first_occurrence, occurs_at};

verus! {

/// Identifier, name, class and subclass of an object.
pub struct ObjectProperties {
    pub uid: i64,
    pub name: String,
    pub class: String,
    pub subclass: String,
}

impl Clone for ObjectProperties {
    fn clone(&self) -> (r: ObjectProperties)
        ensures
            r == *self,
    {
        ObjectProperties {
            uid: self.uid,
            name: self.name.clone(),
            class: self.class.clone(),
            subclass: self.subclass.clone(),
        }
    }
}

/// The separator of the binary form `name\u{0}\u{1}class`.
pub open spec fn binary_separator() -> Seq<char> {
    seq!['\u{0}', '\u{1}']
}

/// The separator of the text form `class::name`.
pub open spec fn text_separator() -> Seq<char> {
    seq![':', ':']
}

/// The (name, class) pair that an object's name-class string holds, split at
/// the first `\u{0}\u{1}` (name before it), or failing that at the first
/// `::` (class before it).
pub open spec fn split_name_class(s: Seq<char>) -> Option<(Seq<char>, Seq<char>)> {
    if exists|i: int| occurs_at(s, binary_separator(), i) {
        let i = choose|i: int| first_occurrence(s, binary_separator(), i);
        Some((s.subrange(0, i), s.subrange(i + 2, s.len() as int)))
    } else if exists|i: int| occurs_at(s, text_separator(), i) {
        let i = choose|i: int| first_occurrence(s, text_separator(), i);
        Some((s.subrange(i + 2, s.len() as int), s.subrange(0, i)))
    } else {
        None
    }
}

proof fn lemma_first_unique(s: Seq<char>, pat: Seq<char>, i: int)
    requires
        first_occurrence(s, pat, i),
    ensures
        (choose|j: int| first_occurrence(s, pat, j)) == i,
{
    let j = choose|j: int| first_occurrence(s, pat, j);
    assert(first_occurrence(s, pat, j));
    if j < i {
        assert(!occurs_at(s, pat, j));
    } else if i < j {
        assert(!occurs_at(s, pat, i));
    }
}

/// Splits an object's name-class string into `(name, class)`.
pub fn separate_name_class(name_class: &str) -> (r: Option<(&str, &str)>)
    ensures
        match r {
            Some((name, class)) => split_name_class(name_class@) == Some((name@, class@)),
            None => split_name_class(name_class@) is None,
        },
{
    let s = name_class;
    let n = s.unicode_len();
    let mut sep = String::new();
    sep.append("\u{0}\u{1}");
    proof {
        reveal_strlit("\u{0}\u{1}");
        assert(sep@ =~= binary_separator());
    }
    match find_chars(s, sep.as_str()) {
        Some(i) => {
            proof {
                lemma_first_unique(s@, binary_separator(), i as int);
            }
            let name = s.substring_char(0, i);
            let class = s.substring_char(i + 2, n);
            return Some((name, class));
        },
        None => {},
    }
    let mut sep = String::new();
    sep.append("::");
    proof {
        reveal_strlit("::");
        assert(sep@ =~= text_separator());
    }
    match find_chars(s, sep.as_str()) {
        Some(i) => {
            proof {
                lemma_first_unique(s@, text_separator(), i as int);
            }
            let class = s.substring_char(0, i);
            let name = s.substring_char(i + 2, n);
            Some((name, class))
        },
        None => None,
    }
}

} // verus!
