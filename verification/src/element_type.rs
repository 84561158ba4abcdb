//! The values carried by element lanes and `user` signals.
use vstd::prelude::*;
use crate::bits::{Bits, max_bits};
use crate::error::Error;
use crate::name::Name;
use crate::ordered_map::{InsertionOrderedMap, MapKey};

verus! {

/// The mathematical model of an element value.
pub enum ElementValue {
    Null,
    Bits(Seq<bool>),
    Group(Seq<(Seq<char>, ElementValue)>),
    Union { tag: nat, no_fields: nat, name: Seq<char>, value: Box<ElementValue>, max_len: nat },
}

/// The number of bits of `x`: 0 for 0, else one more than for `x / 2`.
pub open spec fn bit_length(x: nat) -> nat
    decreases x,
{
    if x == 0 {
        0
    } else {
        1 + bit_length(x / 2)
    }
}

/// The width of the tag of a union with `no_fields` fields: the bit length of
/// the highest tag `no_fields - 1`, and at least one bit.
pub open spec fn tag_width(no_fields: nat) -> nat {
    if no_fields <= 1 || bit_length((no_fields - 1) as nat) == 0 {
        1
    } else {
        bit_length((no_fields - 1) as nat)
    }
}

/// The `w` least significant bits of `t`, least significant first.
pub open spec fn low_bits(t: nat, w: nat) -> Seq<bool>
    decreases w,
{
    if w == 0 {
        Seq::empty()
    } else {
        seq![t % 2 == 1] + low_bits(t / 2, (w - 1) as nat)
    }
}

pub open spec fn zeros(n: nat) -> Seq<bool> {
    Seq::new(n, |i: int| false)
}

impl ElementValue {
    /// The number of bits this value occupies when flattened.
    pub open spec fn len(self) -> nat
        decreases self,
    {
        match self {
            ElementValue::Null => 0,
            ElementValue::Bits(b) => b.len(),
            ElementValue::Group(fields) => fields_len(fields),
            ElementValue::Union { no_fields, max_len, .. } => tag_width(no_fields) + max_len,
        }
    }

    /// The bits of this value, least significant first: the fields of a
    /// group in order; a union as its tag followed by its field, padded with
    /// zeros to the union's maximum length.
    pub open spec fn flat(self) -> Seq<bool>
        decreases self,
    {
        match self {
            ElementValue::Null => Seq::empty(),
            ElementValue::Bits(b) => b,
            ElementValue::Group(fields) => fields_flat(fields),
            ElementValue::Union { tag, no_fields, value, max_len, .. } => low_bits(
                tag,
                tag_width(no_fields),
            ) + value.flat() + zeros(
                if value.len() <= max_len {
                    (max_len - value.len()) as nat
                } else {
                    0
                },
            ),
        }
    }
}

pub open spec fn fields_len(fields: Seq<(Seq<char>, ElementValue)>) -> nat
    decreases fields,
{
    if fields.len() == 0 {
        0
    } else {
        fields_len(fields.drop_last()) + fields.last().1.len()
    }
}

pub open spec fn fields_flat(fields: Seq<(Seq<char>, ElementValue)>) -> Seq<bool>
    decreases fields,
{
    if fields.len() == 0 {
        Seq::empty()
    } else {
        fields_flat(fields.drop_last()) + fields.last().1.flat()
    }
}

/// A value carried by an element lane or a `user` signal.
#[derive(Debug, PartialEq, Eq, Hash)]
pub enum ElementType {
    Null,
    Bits(Bits),
    Group(InsertionOrderedMap<Name, ElementType>),
    Union(UnionElement),
}

/// The value of a union: the index of its active field (the tag), the number
/// of fields, the active field's name and value, and the maximum length of the
/// union's fields.
#[derive(Debug, PartialEq, Eq, Hash)]
pub struct UnionElement {
    tag: u32,
    no_fields: u32,
    name: Name,
    union: Box<ElementType>,
    max_len: usize,
}

impl View for UnionElement {
    type V = ElementValue;

    closed spec fn view(&self) -> ElementValue {
        element_view(ElementType::Union(*self))
    }
}

impl View for ElementType {
    type V = ElementValue;

    closed spec fn view(&self) -> ElementValue {
        element_view(*self)
    }
}

pub closed spec fn element_view(e: ElementType) -> ElementValue
    decreases e,
{
    match e {
        ElementType::Null => ElementValue::Null,
        ElementType::Bits(b) => ElementValue::Bits(b@),
        ElementType::Group(m) => ElementValue::Group(fields_view(m.entries@)),
        ElementType::Union(u) => ElementValue::Union {
            tag: u.tag as nat,
            no_fields: u.no_fields as nat,
            name: u.name@,
            value: Box::new(element_view(*u.union)),
            max_len: u.max_len as nat,
        },
    }
}

pub closed spec fn fields_view(s: Seq<(Name, ElementType)>) -> Seq<(Seq<char>, ElementValue)>
    decreases s,
{
    if s.len() == 0 {
        Seq::empty()
    } else {
        fields_view(s.drop_last()).push((s.last().0@, element_view(s.last().1)))
    }
}

pub closed spec fn same_entry(x: (Name, ElementType), y: (Name, ElementType)) -> bool {
    x.0@ == y.0@ && element_view(x.1) == element_view(y.1)
}

/// `fields_view` of two entry sequences agrees when their names and values
/// agree one by one.
proof fn lemma_fields_view_eq(a: Seq<(Name, ElementType)>, b: Seq<(Name, ElementType)>)
    requires
        a.len() == b.len(),
        forall|i: int| 0 <= i < a.len() ==> #[trigger] same_entry(a[i], b[i]),
    ensures
        fields_view(a) == fields_view(b),
    decreases a.len(),
{
    if a.len() > 0 {
        assert forall|i: int| 0 <= i < a.len() - 1 implies #[trigger] same_entry(
            a.drop_last()[i],
            b.drop_last()[i],
        ) by {
            assert(same_entry(a[i], b[i]));
        }
        lemma_fields_view_eq(a.drop_last(), b.drop_last());
        assert(same_entry(a[a.len() - 1], b[b.len() - 1]));
    }
}

/// The entries of `fields_view` correspond one by one to the entries.
proof fn lemma_fields_view_index(a: Seq<(Name, ElementType)>)
    ensures
        fields_view(a).len() == a.len(),
        forall|i: int|
            0 <= i < a.len() ==> #[trigger] fields_view(a)[i] == (a[i].0@, element_view(a[i].1)),
    decreases a.len(),
{
    if a.len() > 0 {
        lemma_fields_view_index(a.drop_last());
    }
}

impl Clone for ElementType {
    fn clone(&self) -> (r: Self)
        ensures
            r@ == self@,
        decreases self,
    {
        match self {
            ElementType::Null => ElementType::Null,
            ElementType::Bits(b) => ElementType::Bits(b.clone()),
            ElementType::Group(m) => {
                m.lemma_distinct();
                proof {
                    m.lemma_entries();
                }
                let mut r: InsertionOrderedMap<Name, ElementType> = InsertionOrderedMap::new();
                proof {
                    r.lemma_entries();
                }
                let mut i: usize = 0;
                while i < m.len()
                    invariant
                        i <= m.entries@.len(),
                        *self is Group,
                        (*self)->Group_0 == *m,
                        m.entries() == m.entries@,
                        crate::ordered_map::keys_distinct(m.entries()),
                        r.entries().len() == i,
                        r.entries() == r.entries@,
                        forall|j: int|
                            0 <= j < i ==> #[trigger] same_entry(r.entries@[j], m.entries@[j]),
                    decreases m.entries@.len() - i,
                {
                    proof {
                        r.lemma_entries();
                        assert(decreases_to!(*self => (*self)->Group_0));
                        assert(decreases_to!(*m => m.entries));
                        assert(decreases_to!(m.entries => m.entries@));
                        assert(decreases_to!(m.entries@ => m.entries@[i as int]));
                        assert(decreases_to!(m.entries@[i as int] => m.entries@[i as int].1));
                    }
                    let k = m.key_at(i).clone();
                    let v = m.value_at(i).clone();
                    proof {
                        assert forall|j: int|
                            0 <= j < r.entries().len() implies #[trigger] r.entries()[j].0.key()
                            != k.key() by {
                            assert(same_entry(r.entries@[j], m.entries@[j]));
                            assert(m.entries@[j].0.key() != m.entries@[i as int].0.key());
                            assert(r.entries@[j].0.key() == seq![r.entries@[j].0@]);
                        }
                    }
                    let res = r.try_insert(k, v);
                    assert(res is Ok);
                    proof {
                        r.lemma_entries();
                    }
                    i = i + 1;
                }
                proof {
                    r.lemma_entries();
                    assert(r.entries@.len() == m.entries@.len());
                    lemma_fields_view_eq(r.entries@, m.entries@);
                    r.lemma_entries();
                }
                ElementType::Group(r)
            },
            ElementType::Union(u) => ElementType::Union(u.clone()),
        }
    }
}

impl Clone for UnionElement {
    fn clone(&self) -> (r: Self)
        ensures
            r@ == self@,
        decreases self,
    {
        proof {
            use_type_invariant(self);
        }
        let inner = (*self.union).clone();
        UnionElement {
            tag: self.tag,
            no_fields: self.no_fields,
            name: self.name.clone(),
            union: Box::new(inner),
            max_len: self.max_len,
        }
    }
}

impl UnionElement {
    #[verifier::type_invariant]
    closed spec fn wf(self) -> bool {
        &&& self.no_fields > 0
        &&& self.tag <= self.no_fields
        &&& element_view(*self.union).len() <= self.max_len
    }
}

proof fn lemma_fields_len_prefix(s: Seq<(Seq<char>, ElementValue)>, i: int, j: int)
    requires
        0 <= i <= j <= s.len(),
    ensures
        fields_len(s.take(i)) <= fields_len(s.take(j)),
        fields_flat(s.take(i)).len() <= fields_flat(s.take(j)).len(),
    decreases j - i,
{
    if i < j {
        lemma_fields_len_prefix(s, i, j - 1);
        assert(s.take(j).drop_last() =~= s.take(j - 1));
    }
}

proof fn lemma_take_full<A>(s: Seq<A>)
    ensures
        s.take(s.len() as int) == s,
{
    assert(s.take(s.len() as int) =~= s);
}

/// A number below `2^k` has at most `k` bits.
proof fn lemma_bit_length_bound(x: nat, k: nat)
    requires
        x < crate::numbers::pow2(k),
    ensures
        bit_length(x) <= k,
    decreases k,
{
    if x > 0 {
        assert(k > 0);
        lemma_bit_length_bound(x / 2, (k - 1) as nat);
    }
}

/// The width of the tag of a union with `no_fields` fields.
fn compute_tag_width(no_fields: u32) -> (r: usize)
    requires
        no_fields > 0,
    ensures
        r == tag_width(no_fields as nat),
        r <= 32,
{
    proof {
        crate::numbers::lemma_pow2_32();
        lemma_bit_length_bound((no_fields - 1) as nat, 32);
    }
    let mut x: u32 = no_fields - 1;
    let mut w: usize = 0;
    while x > 0
        invariant
            w + bit_length(x as nat) == bit_length((no_fields - 1) as nat),
            bit_length((no_fields - 1) as nat) <= 32,
        decreases x,
    {
        x = x / 2;
        w = w + 1;
    }
    if w == 0 {
        1
    } else {
        w
    }
}

impl ElementType {
    /// The number of bits this value occupies when flattened.
    pub fn len(&self) -> (r: usize)
        requires
            self@.len() <= usize::MAX,
        ensures
            r == self@.len(),
        decreases self,
    {
        match self {
            ElementType::Null => 0,
            ElementType::Bits(b) => b.len(),
            ElementType::Group(m) => {
                proof {
                    m.lemma_entries();
                    lemma_fields_view_index(m.entries@);
                    lemma_take_full(fields_view(m.entries@));
                }
                let ghost gv = fields_view(m.entries@);
                let mut acc: usize = 0;
                let mut i: usize = 0;
                while i < m.len()
                    invariant
                        *self is Group,
                        (*self)->Group_0 == *m,
                        m.entries() == m.entries@,
                        gv == fields_view(m.entries@),
                        gv.len() == m.entries@.len(),
                        forall|j: int|
                            0 <= j < m.entries@.len() ==> #[trigger] gv[j] == (
                                m.entries@[j].0@,
                                element_view(m.entries@[j].1),
                            ),
                        i <= m.entries@.len(),
                        acc == fields_len(gv.take(i as int)),
                        fields_len(gv) <= usize::MAX,
                        gv.take(gv.len() as int) == gv,
                    decreases m.entries@.len() - i,
                {
                    proof {
                        assert(decreases_to!(*self => (*self)->Group_0));
                        assert(decreases_to!(*m => m.entries));
                        assert(decreases_to!(m.entries => m.entries@));
                        assert(decreases_to!(m.entries@ => m.entries@[i as int]));
                        assert(decreases_to!(m.entries@[i as int] => m.entries@[i as int].1));
                        lemma_fields_len_prefix(gv, i + 1, gv.len() as int);
                        assert(gv.take(i + 1).drop_last() =~= gv.take(i as int));
                        assert(gv[i as int].1 == element_view(m.entries@[i as int].1));
                    }
                    let l = m.value_at(i).len();
                    acc = acc + l;
                    i = i + 1;
                }
                acc
            },
            ElementType::Union(u) => u.len(),
        }
    }
}

impl UnionElement {
    /// The flat length of this union: its tag and its widest field.
    pub fn len(&self) -> (r: usize)
        requires
            self@.len() <= usize::MAX,
        ensures
            r == self@.len(),
    {
        proof {
            use_type_invariant(self);
        }
        compute_tag_width(self.no_fields) + self.max_len
    }
}

impl ElementType {
    /// The bits of this value, least significant first (see
    /// `ElementValue::flat`).
    pub fn flatten(&self) -> (r: Bits)
        requires
            self@.flat().len() <= max_bits(),
        ensures
            r@ == self@.flat(),
        decreases self,
    {
        match self {
            ElementType::Null => Bits::new(),
            ElementType::Bits(b) => b.clone(),
            ElementType::Group(m) => {
                proof {
                    m.lemma_entries();
                    lemma_fields_view_index(m.entries@);
                    lemma_take_full(fields_view(m.entries@));
                }
                let ghost gv = fields_view(m.entries@);
                let mut r = Bits::new();
                let mut i: usize = 0;
                while i < m.len()
                    invariant
                        *self is Group,
                        (*self)->Group_0 == *m,
                        m.entries() == m.entries@,
                        gv == fields_view(m.entries@),
                        gv.len() == m.entries@.len(),
                        forall|j: int|
                            0 <= j < m.entries@.len() ==> #[trigger] gv[j] == (
                                m.entries@[j].0@,
                                element_view(m.entries@[j].1),
                            ),
                        i <= m.entries@.len(),
                        r@ == fields_flat(gv.take(i as int)),
                        fields_flat(gv).len() <= max_bits(),
                        gv.take(gv.len() as int) == gv,
                    decreases m.entries@.len() - i,
                {
                    proof {
                        assert(decreases_to!(*self => (*self)->Group_0));
                        assert(decreases_to!(*m => m.entries));
                        assert(decreases_to!(m.entries => m.entries@));
                        assert(decreases_to!(m.entries@ => m.entries@[i as int]));
                        assert(decreases_to!(m.entries@[i as int] => m.entries@[i as int].1));
                        lemma_fields_len_prefix(gv, i + 1, gv.len() as int);
                        assert(gv.take(i + 1).drop_last() =~= gv.take(i as int));
                        assert(gv[i as int].1 == element_view(m.entries@[i as int].1));
                    }
                    let child = m.value_at(i).flatten();
                    r.append(&child);
                    i = i + 1;
                }
                r
            },
            ElementType::Union(u) => u.flatten(),
        }
    }
}

impl UnionElement {
    /// The tag in the width of this union's tag, least significant bit
    /// first.
    pub fn flat_tag(&self) -> (r: Bits)
        ensures
            r@ == low_bits(self@->tag, tag_width(self@->no_fields)),
    {
        proof {
            use_type_invariant(self);
        }
        let w = compute_tag_width(self.no_fields);
        let mut t: u32 = self.tag;
        let mut r = Bits::new();
        let mut i: usize = 0;
        while i < w
            invariant
                i <= w <= 32,
                r@.len() == i,
                r@ + low_bits(t as nat, (w - i) as nat) == low_bits(self.tag as nat, w as nat),
            decreases w - i,
        {
            proof {
                assert(low_bits(t as nat, (w - i) as nat) == seq![t % 2 == 1] + low_bits(
                    (t / 2) as nat,
                    (w - (i + 1)) as nat,
                ));
                assert(r@.push(t % 2 == 1) + low_bits((t / 2) as nat, (w - (i + 1)) as nat) =~= r@
                    + (seq![t % 2 == 1] + low_bits((t / 2) as nat, (w - (i + 1)) as nat)));
            }
            r.push(t % 2 == 1);
            t = t / 2;
            i = i + 1;
        }
        assert(r@ + low_bits(t as nat, 0) =~= r@);
        r
    }

    /// The bits of this union: its tag, its active field, and zeros up to
    /// the union's maximum length.
    pub fn flatten(&self) -> (r: Bits)
        requires
            self@.flat().len() <= max_bits(),
        ensures
            r@ == self@.flat(),
        decreases self,
    {
        proof {
            use_type_invariant(self);
        }
        let mut r = self.flat_tag();
        let child = self.union.flatten();
        r.append(&child);
        let child_len = self.union.len();
        let pad = self.max_len - child_len;
        let ghost before = r@;
        let mut k: usize = 0;
        while k < pad
            invariant
                k <= pad,
                r@ == before + zeros(k as nat),
                before.len() + pad <= max_bits(),
            decreases pad - k,
        {
            r.push(false);
            assert(before + zeros((k + 1) as nat) =~= (before + zeros(k as nat)).push(false));
            k = k + 1;
        }
        r
    }
}

impl UnionElement {
    /// The union value with active field `name` (value `union`), tag `tag`,
    /// `no_fields` fields and widest field `max_len`. `InvalidArgument` when
    /// there are no fields, when the tag exceeds the number of fields, or when
    /// the value is wider than `max_len`.
    pub fn new(tag: u32, no_fields: u32, name: Name, union: ElementType, max_len: usize) -> (r:
        Result<UnionElement, Error>)
        requires
            union@.len() <= usize::MAX,
        ensures
            r is Ok <==> no_fields > 0 && tag <= no_fields && union@.len() <= max_len,
            r matches Ok(u) ==> u@ == (ElementValue::Union {
                tag: tag as nat,
                no_fields: no_fields as nat,
                name: name@,
                value: Box::new(union@),
                max_len: max_len as nat,
            }),
            r matches Err(e) ==> e is InvalidArgument,
    {
        if no_fields == 0 {
            Err(Error::InvalidArgument(String::from_str("The number of fields in a union can't be 0")))
        } else if tag > no_fields {
            let t = (tag as u64).to_string();
            let n = (no_fields as u64).to_string();
            Err(Error::InvalidArgument(crate::messages::concat(&["tag > no_fields, ", t.as_str(), " > ", n.as_str()])))
        } else {
            let len = union.len();
            if len > max_len {
                let l = (len as u64).to_string();
                let m = (max_len as u64).to_string();
                Err(Error::InvalidArgument(crate::messages::concat(&["Union size exceeds max_len: ", l.as_str(), " > ", m.as_str()])))
            } else {
                Ok(UnionElement { tag, no_fields, name, union: Box::new(union), max_len })
            }
        }
    }

    pub fn tag(&self) -> (r: u32)
        ensures
            r == self@->tag,
    {
        self.tag
    }

    pub fn no_fields(&self) -> (r: u32)
        ensures
            r == self@->no_fields,
    {
        self.no_fields
    }

    pub fn field_name(&self) -> (r: &Name)
        ensures
            r@ == self@->name,
    {
        &self.name
    }

    pub fn union_el(&self) -> (r: &ElementType)
        ensures
            r@ == *self@->value,
    {
        &self.union
    }

    /// The maximum length of the fields of this union (the tag excluded).
    pub fn max_len(&self) -> (r: usize)
        ensures
            r == self@->max_len,
    {
        self.max_len
    }
}

impl ElementType {
    /// A union value; see `UnionElement::new`.
    pub fn union(tag: u32, no_fields: u32, name: Name, union: ElementType, max_len: usize) -> (r:
        Result<ElementType, Error>)
        requires
            union@.len() <= usize::MAX,
        ensures
            r is Ok <==> no_fields > 0 && tag <= no_fields && union@.len() <= max_len,
            r matches Ok(e) ==> e@ == (ElementValue::Union {
                tag: tag as nat,
                no_fields: no_fields as nat,
                name: name@,
                value: Box::new(union@),
                max_len: max_len as nat,
            }),
            r matches Err(e) ==> e is InvalidArgument,
    {
        match UnionElement::new(tag, no_fields, name, union, max_len) {
            Ok(u) => Ok(ElementType::Union(u)),
            Err(e) => Err(e),
        }
    }

    /// The bits value holding `bools`, first bit first.
    pub fn from_bools(bools: &[bool]) -> (r: ElementType)
        requires
            bools@.len() <= max_bits(),
        ensures
            r@ == ElementValue::Bits(bools@),
    {
        ElementType::Bits(Bits::from_bools(bools))
    }

    /// The group value of the given fields.
    pub fn group(fields: InsertionOrderedMap<Name, ElementType>) -> (r: ElementType)
        ensures
            r@ is Group,
            r@->Group_0.len() == fields.entries().len(),
            forall|i: int|
                0 <= i < fields.entries().len() ==> #[trigger] r@->Group_0[i] == (
                    fields.entries()[i].0@,
                    fields.entries()[i].1@,
                ),
    {
        proof {
            fields.lemma_entries();
            lemma_fields_view_index(fields.entries@);
        }
        ElementType::Group(fields)
    }
}

/// `s` equals `word` when upper-case ASCII letters of `s` are read as lower
/// case (this is what `str::to_lowercase` gives for the lower-case ASCII words
/// compared here).
pub open spec fn ascii_ci_eq(s: Seq<char>, word: Seq<char>) -> bool {
    &&& s.len() == word.len()
    &&& forall|i: int|
        0 <= i < s.len() ==> (#[trigger] s[i] == word[i] || ('A' <= s[i] && s[i] <= 'Z' && (s[i]
            as u32) + 32 == (word[i] as u32)))
}

pub open spec fn null_word() -> Seq<char> {
    seq!['n', 'u', 'l', 'l']
}

/// Every character of `s` is `0` or `1`.
pub open spec fn is_bit_string(s: Seq<char>) -> bool {
    forall|i: int| 0 <= i < s.len() ==> #[trigger] s[i] == '0' || s[i] == '1'
}

/// The bits spelled by a string of `0`s and `1`s, first character first.
pub open spec fn bits_of_string(s: Seq<char>) -> Seq<bool> {
    s.map_values(|c: char| c == '1')
}

/// The element value a text spells: `Null` for the empty text and for
/// `null` in any ASCII case, bits for a text of `0`s and `1`s, else none.
pub open spec fn parse_element(s: Seq<char>) -> Option<ElementValue> {
    if s.len() == 0 || ascii_ci_eq(s, null_word()) {
        Some(ElementValue::Null)
    } else if is_bit_string(s) {
        Some(ElementValue::Bits(bits_of_string(s)))
    } else {
        None
    }
}

/// Compares `s` with `word`, reading upper-case ASCII letters of `s` as lower
/// case.
pub fn eq_ignore_ascii_case(s: &str, word: &str) -> (r: bool)
    ensures
        r == ascii_ci_eq(s@, word@),
{
    let n = s.unicode_len();
    if n != word.unicode_len() {
        return false;
    }
    let mut i: usize = 0;
    while i < n
        invariant
            n == s@.len() == word@.len(),
            i <= n,
            forall|j: int|
                0 <= j < i ==> (#[trigger] s@[j] == word@[j] || ('A' <= s@[j] && s@[j] <= 'Z' && (
                s@[j] as u32) + 32 == (word@[j] as u32))),
        decreases n - i,
    {
        let c = s.get_char(i);
        let w = word.get_char(i);
        if !(c == w || ('A' <= c && c <= 'Z' && (c as u32) + 32 == (w as u32))) {
            return false;
        }
        i = i + 1;
    }
    true
}

impl ElementType {
    /// Parses an element value: the empty string and `null` (in any ASCII
    /// case) give `Null`; a string of `0`s and `1`s gives those bits, first
    /// character first; anything else is an `InvalidArgument` error.
    pub fn from_str(s: &str) -> (r: Result<ElementType, Error>)
        requires
            s@.len() <= max_bits(),
        ensures
            match parse_element(s@) {
                Some(v) => r matches Ok(e) && e@ == v,
                None => r matches Err(e) && e is InvalidArgument,
            },
    {
        let n = s.unicode_len();
        let null = "null";
        proof {
            reveal_strlit("null");
            assert(null@ =~= null_word());
        }
        if n == 0 || eq_ignore_ascii_case(s, null) {
            return Ok(ElementType::Null);
        }
        let mut r = Bits::new();
        let mut i: usize = 0;
        while i < n
            invariant
                n == s@.len() <= max_bits(),
                !(s@.len() == 0 || ascii_ci_eq(s@, null_word())),
                i <= n,
                r@ == bits_of_string(s@.take(i as int)),
                forall|j: int| 0 <= j < i ==> #[trigger] s@[j] == '0' || s@[j] == '1',
            decreases n - i,
        {
            let c = s.get_char(i);
            if c == '1' {
                r.push(true);
            } else if c == '0' {
                r.push(false);
            } else {
                return Err(
                    Error::InvalidArgument(
                        crate::messages::concat(
                            &["ElementType cannot be parsed from string \"", s, "\""],
                        ),
                    ),
                );
            }
            assert(bits_of_string(s@.take(i + 1)) =~= bits_of_string(s@.take(i as int)).push(
                c == '1',
            ));
            i = i + 1;
        }
        assert(s@.take(n as int) =~= s@);
        Ok(ElementType::Bits(r))
    }
}


/// Bits as digits separated by commas, bit 0 first.
pub open spec fn bit_list_text(b: Seq<bool>) -> Seq<char> {
    crate::messages::join_spec(
        b.map_values(
            |x: bool|
                if x {
                    "1"@
                } else {
                    "0"@
                },
        ),
        ", "@,
    )
}

/// A value in words: `Null`, `Bits([1, 0])`, `Group(a: .., b: ..)` or
/// `Union(tag: t (name), union: ..)`.
pub open spec fn element_text(e: ElementValue) -> Seq<char>
    decreases e,
{
    match e {
        ElementValue::Null => "Null"@,
        ElementValue::Bits(b) => "Bits(["@ + bit_list_text(b) + "])"@,
        ElementValue::Group(fs) => "Group("@ + element_fields_text(fs) + ")"@,
        ElementValue::Union { tag, name, value, .. } => "Union(tag: "@ + crate::messages::decimal_spec(
            tag,
        ) + " ("@ + name + "), union: "@ + element_text(*value) + ")"@,
    }
}

/// Named values in words, separated by commas.
pub open spec fn element_fields_text(fs: Seq<(Seq<char>, ElementValue)>) -> Seq<char>
    decreases fs,
{
    if fs.len() == 0 {
        Seq::empty()
    } else if fs.len() == 1 {
        fs[0].0 + ": "@ + element_text(fs[0].1)
    } else {
        element_fields_text(fs.drop_last()) + ", "@ + fs.last().0 + ": "@ + element_text(fs.last().1)
    }
}

impl ElementType {
    /// The value in words (see `element_text`).
    pub fn text(&self) -> (r: String)
        ensures
            r@ == element_text(self@),
        decreases self,
    {
        match self {
            ElementType::Null => String::from_str("Null"),
            ElementType::Bits(b) => {
                let ghost digits = b@.map_values(
                    |x: bool|
                        if x {
                            "1"@
                        } else {
                            "0"@
                        },
                );
                let mut r = String::from_str("Bits([");
                let mut i: usize = 0;
                proof {
                    assert(digits.take(0) =~= Seq::<Seq<char>>::empty());
                }
                while i < b.len()
                    invariant
                        i <= b@.len(),
                        digits == b@.map_values(
                            |x: bool|
                                if x {
                                    "1"@
                                } else {
                                    "0"@
                                },
                        ),
                        r@ == "Bits(["@ + crate::messages::join_spec(digits.take(i as int), ", "@),
                    decreases b@.len() - i,
                {
                    proof {
                        assert(digits.take(i + 1).drop_last() =~= digits.take(i as int));
                        assert(digits.take(i + 1).last() == digits[i as int]);
                        if i == 0 {
                            assert(digits.take(1) =~= seq![digits[0]]);
                        }
                    }
                    if i > 0 {
                        r.append(", ");
                    }
                    if b.get(i) {
                        r.append("1");
                    } else {
                        r.append("0");
                    }
                    proof {
                        assert(r@ =~= "Bits(["@ + crate::messages::join_spec(digits.take(i + 1), ", "@));
                    }
                    i = i + 1;
                }
                proof {
                    assert(digits.take(b@.len() as int) =~= digits);
                }
                r.append("])");
                r
            },
            ElementType::Group(m) => {
                let ghost fs = m.entries@;
                let mut r = String::from_str("Group(");
                let mut i: usize = 0;
                proof {
                    m.lemma_entries();
                    lemma_fields_view_index(fs);
                    assert(fields_view(fs).take(0) =~= Seq::<(Seq<char>, ElementValue)>::empty());
                }
                while i < m.len()
                    invariant
                        *self is Group,
                        (*self)->Group_0 == *m,
                        fs == m.entries@,
                        m.entries() == fs,
                        i <= fs.len(),
                        fields_view(fs).len() == fs.len(),
                        forall|k: int|
                            0 <= k < fs.len() ==> #[trigger] fields_view(fs)[k] == (
                                fs[k].0@,
                                element_view(fs[k].1),
                            ),
                        r@ == "Group("@ + element_fields_text(fields_view(fs).take(i as int)),
                    decreases m.entries().len() - i,
                {
                    proof {
                        assert(decreases_to!(*self => (*self)->Group_0));
                        assert(decreases_to!(*m => m.entries));
                        assert(decreases_to!(m.entries => m.entries@));
                        assert(decreases_to!(m.entries@ => m.entries@[i as int]));
                        assert(decreases_to!(m.entries@[i as int] => m.entries@[i as int].1));
                    }
                    if i > 0 {
                        r.append(", ");
                    }
                    let k = m.key_at(i);
                    r.append(k.as_str());
                    r.append(": ");
                    let t = m.value_at(i).text();
                    r.append(t.as_str());
                    proof {
                        let fv = fields_view(fs).take(i + 1);
                        assert(fv.drop_last() =~= fields_view(fs).take(i as int));
                        assert(fv[i as int] == (k@, element_view(fs[i as int].1)));
                        if i == 0 {
                            assert(fv.len() == 1);
                        } else {
                            assert(fv.last() == fv[i as int]);
                        }
                        assert(r@ =~= "Group("@ + element_fields_text(fv));
                    }
                    i = i + 1;
                }
                proof {
                    assert(fields_view(fs).take(fs.len() as int) =~= fields_view(fs));
                }
                r.append(")");
                r
            },
            ElementType::Union(u) => {
                let mut r = String::from_str("Union(tag: ");
                let t = crate::messages::decimal(u.tag() as u64);
                r.append(t.as_str());
                r.append(" (");
                r.append(u.field_name().as_str());
                r.append("), union: ");
                proof {
                    assert(decreases_to!(*self => (*self)->Union_0));
                }
                let inner = u.union_text();
                r.append(inner.as_str());
                r.append(")");
                r
            },
        }
    }
}

impl UnionElement {
    fn union_text(&self) -> (r: String)
        ensures
            r@ == element_text(element_view(*self.union)),
        decreases self, 0nat,
    {
        proof {
            assert(decreases_to!(*self => self.union));
        }
        self.union.text()
    }
}

} // verus!
