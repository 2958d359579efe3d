//! The collections of the target media library.
//!
//! The library is a flat set of collection directories. Each video
//! belongs to one separated collection, named by its descriptor, and
//! every video also appears in the unified collection. A manifest
//! declares both, so that a descriptor naming a collection the manifest
//! does not declare is an [`UndeclaredCollection`] error rather than a
//! silently created directory.

use crate::debug_text::{debug_quoted, debug_str};
use crate::text::{chars_of, find_char, find_char_from, has_char, push_str, same_text, string_of};
use vstd::prelude::*;

verus! {

/// Why a text is not a collection name.
#[derive(Clone, Copy, Debug, PartialEq, Eq, Structural)]
#[non_exhaustive]
pub enum ParseCollectionNameError {
    /// The name holds a backslash.
    ContainsBackslash,
    /// The name is empty.
    Empty,
    /// A `/` leads, trails, or follows another `/`.
    StraySlash,
    /// A path component is `.` or `..`.
    RelativeComponent,
}

/// The `/`-separated components of `s`, empty ones included.
pub open spec fn components(s: Seq<char>) -> Seq<Seq<char>>
    decreases s.len(),
{
    let k = find_char(s, '/');
    if k < s.len() {
        seq![s.take(k as int)] + components(s.skip(k + 1 as int))
    } else {
        seq![s]
    }
}

/// Why a path component is refused, if it is.
pub open spec fn component_error(component: Seq<char>) -> Option<ParseCollectionNameError> {
    if component.len() == 0 {
        Some(ParseCollectionNameError::StraySlash)
    } else if component == seq!['.'] || component == seq!['.', '.'] {
        Some(ParseCollectionNameError::RelativeComponent)
    } else {
        None
    }
}

/// The error of the first refused component of `parts`, if any.
pub open spec fn first_component_error(parts: Seq<Seq<char>>) -> Option<ParseCollectionNameError>
    decreases parts.len(),
{
    if parts.len() == 0 {
        None
    } else {
        match component_error(parts[0]) {
            Some(error) => Some(error),
            None => first_component_error(parts.drop_first()),
        }
    }
}

/// Why `s` is not a collection name, if it is not one: a backslash, then
/// emptiness, then the first refused component.
pub open spec fn collection_name_error(s: Seq<char>) -> Option<ParseCollectionNameError> {
    if has_char(s, '\\') {
        Some(ParseCollectionNameError::ContainsBackslash)
    } else if s.len() == 0 {
        Some(ParseCollectionNameError::Empty)
    } else {
        first_component_error(components(s))
    }
}

/// The name of a collection directory, relative to the root of the media
/// library: one or more `/`-separated components, none of them empty,
/// `.` or `..`, and no backslash, so that it stays inside the root.
#[derive(Debug, PartialEq, Eq)]
pub struct CollectionName(String);

impl CollectionName {
    #[verifier::type_invariant]
    spec fn valid(self) -> bool {
        collection_name_error(self.0@) is None
    }
}

impl View for CollectionName {
    type V = Seq<char>;

    closed spec fn view(&self) -> Seq<char> {
        self.0@
    }
}

impl ParseCollectionNameError {
    /// What the error says.
    pub fn to_string(&self) -> (result: &'static str)
        ensures
            result@ == match *self {
                ParseCollectionNameError::ContainsBackslash => "collection name must not contain backslashes"@,
                ParseCollectionNameError::Empty => "collection name must not be empty"@,
                ParseCollectionNameError::StraySlash => "collection name must not contain a leading, trailing, or repeated \"/\""@,
                ParseCollectionNameError::RelativeComponent => "collection name must not contain a \".\" or \"..\" path component"@,
            },
    {
        match self {
            ParseCollectionNameError::ContainsBackslash => "collection name must not contain backslashes",
            ParseCollectionNameError::Empty => "collection name must not be empty",
            ParseCollectionNameError::StraySlash => "collection name must not contain a leading, trailing, or repeated \"/\"",
            ParseCollectionNameError::RelativeComponent => "collection name must not contain a \".\" or \"..\" path component",
        }
    }
}

/// Why the component `chars[lo..hi]` is refused, if it is.
fn check_component(chars: &Vec<char>, lo: usize, hi: usize) -> (result: Option<ParseCollectionNameError>)
    requires
        lo <= hi <= chars@.len(),
    ensures
        result == component_error(chars@.subrange(lo as int, hi as int)),
{
    let ghost c = chars@.subrange(lo as int, hi as int);
    if lo == hi {
        return Some(ParseCollectionNameError::StraySlash);
    }
    if hi - lo == 1 && chars[lo] == '.' {
        proof {
            assert(c =~= seq!['.']);
        }
        return Some(ParseCollectionNameError::RelativeComponent);
    }
    if hi - lo == 2 && chars[lo] == '.' && chars[lo + 1] == '.' {
        proof {
            assert(c =~= seq!['.', '.']);
        }
        return Some(ParseCollectionNameError::RelativeComponent);
    }
    proof {
        if c =~= seq!['.'] {
            assert(c[0] == chars@[lo as int]);
        }
        if c =~= seq!['.', '.'] {
            assert(c[0] == chars@[lo as int]);
            assert(c[1] == chars@[lo + 1]);
        }
    }
    None
}

impl CollectionName {
    /// Wraps `value` if and only if it is a collection name.
    pub fn new(value: String) -> (result: Result<CollectionName, ParseCollectionNameError>)
        ensures
            match collection_name_error(value@) {
                Some(error) => result == Err::<CollectionName, ParseCollectionNameError>(error),
                None => result matches Ok(name) && name@ == value@,
            },
    {
        let chars = chars_of(value.as_str());
        let slash = find_char_from(&chars, 0, '\\');
        proof {
            assert(chars@.skip(0) =~= chars@);
            crate::text::lemma_prefix_len(chars@, crate::text::not_char('\\'));
            if has_char(chars@, '\\') {
                let i = choose|i: int| 0 <= i < chars@.len() && chars@[i] == '\\';
                assert(!crate::text::not_char('\\')(chars@[i]));
            }
        }
        if slash < chars.len() {
            return Err(ParseCollectionNameError::ContainsBackslash);
        }
        if chars.len() == 0 {
            return Err(ParseCollectionNameError::Empty);
        }
        let mut start: usize = 0;
        loop
            invariant
                start <= chars@.len(),
                chars@ == value@,
                !has_char(chars@, '\\'),
                chars@.len() > 0,
                first_component_error(components(chars@)) == first_component_error(
                    components(chars@.skip(start as int)),
                ),
            ensures
                first_component_error(components(chars@)) is None,
            decreases chars@.len() - start,
        {
            let ghost rest = chars@.skip(start as int);
            let end = find_char_from(&chars, start, '/');
            let ghost k = find_char(rest, '/');
            match check_component(&chars, start, end) {
                Some(error) => {
                    proof {
                        if k < rest.len() {
                            assert(rest.take(k as int) =~= chars@.subrange(start as int, end as int));
                            assert(components(rest)[0] == rest.take(k as int));
                        } else {
                            assert(rest =~= chars@.subrange(start as int, end as int));
                        }
                    }
                    return Err(error);
                },
                None => {},
            }
            if end == chars.len() {
                proof {
                    assert(rest =~= chars@.subrange(start as int, end as int));
                    assert(components(rest).drop_first() =~= Seq::<Seq<char>>::empty());
                    reveal_with_fuel(first_component_error, 2);
                }
                break;
            }
            proof {
                assert(rest.take(k as int) =~= chars@.subrange(start as int, end as int));
                assert(rest.skip(k + 1 as int) =~= chars@.skip(end + 1));
                assert(components(rest).drop_first() =~= components(chars@.skip(end + 1)));
            }
            start = end + 1;
        }
        Ok(CollectionName(value))
    }

    /// The name's text.
    pub fn as_str(&self) -> (result: &str)
        ensures
            result@ == self@,
            collection_name_error(self@) is None,
    {
        proof {
            use_type_invariant(self);
        }
        self.0.as_str()
    }

    /// A copy of the name.
    pub fn duplicate(&self) -> (result: CollectionName)
        ensures
            result@ == self@,
    {
        proof {
            use_type_invariant(self);
        }
        CollectionName(self.0.clone())
    }
}

/// The views of a list of collection names.
pub open spec fn names_view(names: Seq<CollectionName>) -> Seq<Seq<char>> {
    names.map_values(|name: CollectionName| name@)
}

/// The parsed contents of a collections manifest.
#[derive(Debug)]
pub struct CollectionsDesc {
    /// The collection that receives a copy of every subtitle file.
    pub unified: CollectionName,
    /// The collections a video descriptor may name.
    pub separated: Vec<CollectionName>,
}

/// A collection name that the manifest does not declare among its
/// separated collections.
#[derive(Debug)]
pub struct UndeclaredCollection {
    /// The name that was looked up.
    name: String,
    /// The separated collections the manifest declares.
    expected: Vec<String>,
}

/// The texts of a list of strings, each quoted as `Debug` quotes it and
/// separated by `, `.
pub open spec fn quoted_list(items: Seq<Seq<char>>) -> Seq<char>
    decreases items.len(),
{
    if items.len() == 0 {
        Seq::empty()
    } else {
        quoted_list(items.drop_last()) + (if items.len() > 1 {
            ", "@
        } else {
            Seq::empty()
        }) + debug_str(items.last())
    }
}

impl UndeclaredCollection {
    /// The name that was looked up.
    pub closed spec fn name(&self) -> Seq<char> {
        self.name@
    }

    /// The declared separated collections.
    pub closed spec fn expected(&self) -> Seq<Seq<char>> {
        crate::parse::texts(self.expected@)
    }

    /// What the error says: the unknown name, and the declared names.
    pub fn to_string(&self) -> (result: String)
        ensures
            result@ == "unknown collection: "@ + debug_str(self.name()) + " (expected one of ["@
                + quoted_list(self.expected()) + "])"@,
    {
        let mut output = String::new();
        push_str(&mut output, "unknown collection: ");
        let quoted = debug_quoted(self.name.as_str());
        push_str(&mut output, quoted.as_str());
        push_str(&mut output, " (expected one of [");
        let ghost list_start = output@;
        let ghost all = self.expected();
        let mut i: usize = 0;
        proof {
            assert(all.take(0) =~= Seq::<Seq<char>>::empty());
            assert(output@ =~= list_start + quoted_list(all.take(0)));
        }
        while i < self.expected.len()
            invariant
                i <= self.expected@.len(),
                all == self.expected(),
                output@ == list_start + quoted_list(all.take(i as int)),
            decreases self.expected@.len() - i,
        {
            if i > 0 {
                push_str(&mut output, ", ");
            }
            let item = debug_quoted(self.expected[i].as_str());
            push_str(&mut output, item.as_str());
            proof {
                let t = all.take(i + 1);
                assert(t.drop_last() =~= all.take(i as int));
                assert(output@ =~= list_start + quoted_list(t));
            }
            i = i + 1;
        }
        push_str(&mut output, "])");
        proof {
            assert(all.take(self.expected@.len() as int) =~= all);
        }
        output
    }
}

impl CollectionsDesc {
    /// Every declared collection: the separated ones in the order the
    /// manifest lists them, then the unified one.
    pub fn names(&self) -> (result: Vec<&CollectionName>)
        ensures
            result@.len() == self.separated@.len() + 1,
            forall|i: int| 0 <= i < self.separated@.len() ==> *result@[i] == self.separated@[i],
            *result@[self.separated@.len() as int] == self.unified,
    {
        let mut names: Vec<&CollectionName> = Vec::new();
        let mut i: usize = 0;
        while i < self.separated.len()
            invariant
                i <= self.separated@.len(),
                names@.len() == i,
                forall|j: int| 0 <= j < i ==> *names@[j] == self.separated@[j],
            decreases self.separated@.len() - i,
        {
            names.push(&self.separated[i]);
            i = i + 1;
        }
        names.push(&self.unified);
        names
    }

    /// Checks that `name` is one of the declared separated collections; a
    /// name the manifest does not declare is an error that names it and
    /// the declared ones.
    pub fn check_separated(&self, name: &str) -> (result: Result<(), UndeclaredCollection>)
        ensures
            result is Ok <==> names_view(self.separated@).contains(name@),
            result matches Err(e) ==> e.name() == name@ && e.expected() == names_view(
                self.separated@,
            ),
    {
        let ghost all = names_view(self.separated@);
        let mut expected: Vec<String> = Vec::new();
        let mut i: usize = 0;
        while i < self.separated.len()
            invariant
                i <= self.separated@.len(),
                all == names_view(self.separated@),
                forall|j: int| 0 <= j < i ==> all[j] != name@,
                crate::parse::texts(expected@) =~= all.take(i as int),
            decreases self.separated@.len() - i,
        {
            if same_text(self.separated[i].as_str(), name) {
                proof {
                    assert(all[i as int] == name@);
                }
                return Ok(());
            }
            let declared = chars_of(self.separated[i].as_str());
            let text = string_of(&declared, 0, declared.len());
            proof {
                assert(declared@.subrange(0, declared@.len() as int) =~= declared@);
                assert(text@ == all[i as int]);
            }
            let ghost before = expected@;
            expected.push(text);
            proof {
                assert(all.take(i + 1) =~= all.take(i as int).push(all[i as int]));
                assert(crate::parse::texts(expected@) =~= crate::parse::texts(before).push(all[i as int]));
            }
            i = i + 1;
        }
        proof {
            assert(all.take(i as int) =~= all);
            if all.contains(name@) {
                let j = choose|j: int| 0 <= j < all.len() && all[j] == name@;
                assert(all[j] != name@);
            }
        }
        let mut looked_up = String::new();
        push_str(&mut looked_up, name);
        Err(UndeclaredCollection { name: looked_up, expected })
    }
}

} // verus!
