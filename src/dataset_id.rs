//! Dataset identifiers and their grammar.

use vstd::prelude::*;

verus! {

pub open spec fn is_lower_alpha(c: char) -> bool {
    'a' <= c && c <= 'z'
}

pub open spec fn is_lower_alnum(c: char) -> bool {
    is_lower_alpha(c) || ('0' <= c && c <= '9')
}

pub open spec fn is_id_char(c: char) -> bool {
    is_lower_alnum(c) || c == '.' || c == '-' || c == '_'
}

/// The identifier grammar: non-empty dot-separated segments made of lowercase
/// letters, digits, `-` and `_`, the first segment starting with a letter.
pub open spec fn is_valid_dataset_id(s: Seq<char>) -> bool {
    &&& s.len() > 0
    &&& is_lower_alpha(s[0])
    &&& forall|i: int| 0 <= i < s.len() ==> is_id_char(#[trigger] s[i])
    &&& forall|i: int|
        0 <= i < s.len() && #[trigger] s[i] == '.' ==> i + 1 < s.len() && s[i + 1] != '.'
}

fn lower_alpha(c: char) -> (r: bool)
    ensures
        r == is_lower_alpha(c),
{
    'a' <= c && c <= 'z'
}

fn lower_alnum(c: char) -> (r: bool)
    ensures
        r == is_lower_alnum(c),
{
    lower_alpha(c) || ('0' <= c && c <= '9')
}

fn id_char(c: char) -> (r: bool)
    ensures
        r == is_id_char(c),
{
    lower_alnum(c) || c == '.' || c == '-' || c == '_'
}

/// Tells whether the whole of `s` is a dataset identifier.
pub fn match_dataset_id(s: &str) -> (r: bool)
    ensures
        r == is_valid_dataset_id(s@),
{
    let n = s.unicode_len();
    if n == 0 {
        return false;
    }
    if !lower_alpha(s.get_char(0)) {
        return false;
    }
    let mut i: usize = 0;
    while i < n
        invariant
            n == s@.len(),
            0 <= i <= n,
            is_lower_alpha(s@[0]),
            forall|j: int| 0 <= j < i ==> is_id_char(#[trigger] s@[j]),
            forall|j: int|
                0 <= j < i && #[trigger] s@[j] == '.' ==> j + 1 < n && s@[j + 1] != '.',
        decreases n - i,
    {
        let c = s.get_char(i);
        if !id_char(c) {
            return false;
        }
        if c == '.' {
            if i + 1 >= n {
                return false;
            }
            if s.get_char(i + 1) == '.' {
                return false;
            }
        }
        i += 1;
    }
    true
}

/// The rejected text of an identifier that does not follow the grammar.
#[derive(Debug, Clone)]
pub struct InvalidDatasetID {
    pub invalid_id: String,
}

/// A validated identifier borrowed from a string; ordered lexicographically.
#[derive(Debug, Clone, Copy, PartialEq, Eq, PartialOrd, Ord, Hash)]
pub struct DatasetID<'a> {
    id: &'a str,
}

impl<'a> View for DatasetID<'a> {
    type V = Seq<char>;

    closed spec fn view(&self) -> Seq<char> {
        self.id@
    }
}

impl<'a> DatasetID<'a> {
    /// Every borrowed identifier follows the grammar.
    pub closed spec fn wf(&self) -> bool {
        is_valid_dataset_id(self.id@)
    }

    pub fn try_from(s: &'a str) -> (r: Result<DatasetID<'a>, InvalidDatasetID>)
        ensures
            r is Ok <==> is_valid_dataset_id(s@),
            r matches Ok(id) ==> id@ == s@ && id.wf(),
            r matches Err(e) ==> e.invalid_id@ == s@,
    {
        if match_dataset_id(s) {
            Ok(DatasetID { id: s })
        } else {
            Err(InvalidDatasetID { invalid_id: s.to_owned() })
        }
    }

    pub fn as_str(&self) -> (r: &'a str)
        ensures
            r@ == self@,
    {
        self.id
    }

    pub fn to_owned(&self) -> (r: DatasetIDBuf)
        ensures
            r@ == self@,
    {
        DatasetIDBuf { id: self.id.to_owned() }
    }
}

/// An owned identifier; ordered lexicographically.
#[derive(Debug, Clone, PartialOrd, Ord, Hash)]
pub struct DatasetIDBuf {
    id: String,
}

impl View for DatasetIDBuf {
    type V = Seq<char>;

    closed spec fn view(&self) -> Seq<char> {
        self.id@
    }
}

impl DeepView for DatasetIDBuf {
    type V = Seq<char>;

    open spec fn deep_view(&self) -> Seq<char> {
        self@
    }
}

impl DatasetIDBuf {
    /// The empty placeholder identifier.
    pub fn new() -> (r: DatasetIDBuf)
        ensures
            r@ == Seq::<char>::empty(),
    {
        DatasetIDBuf { id: String::new() }
    }

    pub fn try_from(s: &str) -> (r: Result<DatasetIDBuf, InvalidDatasetID>)
        ensures
            r is Ok <==> is_valid_dataset_id(s@),
            r matches Ok(id) ==> id@ == s@,
            r matches Err(e) ==> e.invalid_id@ == s@,
    {
        if match_dataset_id(s) {
            Ok(DatasetIDBuf { id: s.to_owned() })
        } else {
            Err(InvalidDatasetID { invalid_id: s.to_owned() })
        }
    }

    pub fn as_str(&self) -> (r: &str)
        ensures
            r@ == self@,
    {
        self.id.as_str()
    }

    /// A second owned copy of the same identifier.
    pub fn copied(&self) -> (r: DatasetIDBuf)
        ensures
            r@ == self@,
    {
        DatasetIDBuf { id: self.id.clone() }
    }

    pub fn same_as(&self, other: &DatasetIDBuf) -> (r: bool)
        ensures
            r == (self@ == other@),
    {
        self.id == other.id
    }
}

impl PartialEq for DatasetIDBuf {
    fn eq(&self, other: &DatasetIDBuf) -> (r: bool) {
        self.id == other.id
    }
}

impl vstd::std_specs::cmp::PartialEqSpecImpl for DatasetIDBuf {
    open spec fn obeys_eq_spec() -> bool {
        true
    }

    open spec fn eq_spec(&self, other: &DatasetIDBuf) -> bool {
        self@ == other@
    }
}

impl Eq for DatasetIDBuf {
}

impl Default for DatasetIDBuf {
    fn default() -> (r: DatasetIDBuf)
        ensures
            r@ == Seq::<char>::empty(),
    {
        DatasetIDBuf::new()
    }
}

} // verus!
