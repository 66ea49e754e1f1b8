//! The four-field composite key that orders every sample.
use crate::text::chars_string;
use crate::text::decimal;
use crate::text::push_decimal;
use crate::tool::is_keys_equal;
use std::cmp::Ordering;
use vstd::prelude::*;
use vstd::std_specs::cmp::PartialOrdSpec;

verus! {

/// `(timestamp, user_id, item_id, request_id)` of one row.
///
/// The ids under which the four fields are stored are fixed, so they are
/// written down here rather than looked up. For historical reasons the
/// request id is called `llsid` by some producers.
#[derive(Clone, Copy, Debug, Eq, Ord)]
pub struct SampleKey {
    pub timestamp: u64,
    pub user_id: u64,
    pub item_id: u64,
    pub request_id: u64,
}

impl SampleKey {
    /// Strict lexicographic order on `(timestamp, user_id, item_id, request_id)`.
    pub open spec fn lt(self, other: SampleKey) -> bool {
        self.timestamp < other.timestamp || (self.timestamp == other.timestamp && (self.user_id
            < other.user_id || (self.user_id == other.user_id && (self.item_id < other.item_id || (
        self.item_id == other.item_id && self.request_id < other.request_id)))))
    }

    /// `self` does not come after `other`.
    pub open spec fn le(self, other: SampleKey) -> bool {
        self.lt(other) || self == other
    }

    /// How `self` stands to `other` in the lexicographic order.
    pub open spec fn ordering(self, other: SampleKey) -> Ordering {
        if self.lt(other) {
            Ordering::Less
        } else if self == other {
            Ordering::Equal
        } else {
            Ordering::Greater
        }
    }

    pub fn new(timestamp: u64, user_id: u64, item_id: u64, request_id: u64) -> (key: Self)
        ensures
            key.timestamp == timestamp,
            key.user_id == user_id,
            key.item_id == item_id,
            key.request_id == request_id,
    {
        Self { timestamp, user_id, item_id, request_id }
    }

    /// The four fields in decimal, joined by `_`.
    pub open spec fn text(self) -> Seq<char> {
        decimal(self.timestamp as nat) + seq!['_'] + decimal(self.user_id as nat) + seq!['_']
            + decimal(self.item_id as nat) + seq!['_'] + decimal(self.request_id as nat)
    }

    /// `timestamp_user_item_request`, each field in decimal.
    pub fn to_string(&self) -> (s: String)
        ensures
            s@ == self.text(),
    {
        let mut text: Vec<char> = Vec::new();
        push_decimal(&mut text, self.timestamp);
        text.push('_');
        push_decimal(&mut text, self.user_id);
        text.push('_');
        push_decimal(&mut text, self.item_id);
        text.push('_');
        push_decimal(&mut text, self.request_id);
        assert(text@ =~= self.text());
        chars_string(&text)
    }

    /// The column ids under which the four fields are stored, in key order.
    pub open spec fn sample_key_ids() -> Seq<u32> {
        seq![2u32, 4u32, 5u32, 6u32]
    }

    /// The column ids of the sample key. They are fixed.
    pub fn get_sample_key_ids() -> (ids: &'static [u32])
        ensures
            ids@ == Self::sample_key_ids(),
    {
        let ids: &'static [u32] = &[2, 4, 5, 6];
        assert(ids@ =~= Self::sample_key_ids());
        ids
    }

    /// The names of the four fields, in key order.
    pub fn get_sample_key_names() -> (names: &'static [&'static str])
        ensures
            names@.len() == 4,
            names@[0]@ == "timestamp"@,
            names@[1]@ == "user_id"@,
            names@[2]@ == "item_id"@,
            names@[3]@ == "request_id"@,
    {
        let names: &'static [&'static str] = &["timestamp", "user_id", "item_id", "request_id"];
        names
    }

    /// Each field's name with its column id, in key order.
    pub fn get_sample_key_pair() -> (pairs: &'static [(&'static str, u32)])
        ensures
            pairs@.len() == 4,
            pairs@[0].0@ == "timestamp"@ && pairs@[0].1 == 2,
            pairs@[1].0@ == "user_id"@ && pairs@[1].1 == 4,
            pairs@[2].0@ == "item_id"@ && pairs@[2].1 == 5,
            pairs@[3].0@ == "request_id"@ && pairs@[3].1 == 6,
    {
        let pairs: &'static [(&'static str, u32)] = &[
            ("timestamp", 2),
            ("user_id", 4),
            ("item_id", 5),
            ("request_id", 6),
        ];
        pairs
    }

    /// Whether `col_ids` is the list of the sample key's column ids.
    pub fn is_sample_key_ids(col_ids: &[u32]) -> (is_key: bool)
        ensures
            is_key == (col_ids@ == Self::sample_key_ids()),
    {
        is_keys_equal(SampleKey::get_sample_key_ids(), col_ids)
    }
}

impl PartialEq for SampleKey {
    fn eq(&self, other: &Self) -> (r: bool) {
        self.timestamp == other.timestamp && self.user_id == other.user_id && self.item_id
            == other.item_id && self.request_id == other.request_id
    }
}

impl vstd::std_specs::cmp::PartialEqSpecImpl for SampleKey {
    open spec fn obeys_eq_spec() -> bool {
        true
    }

    open spec fn eq_spec(&self, other: &Self) -> bool {
        *self == *other
    }
}

impl PartialOrd for SampleKey {
    fn partial_cmp(&self, other: &Self) -> (r: Option<Ordering>) {
        if self.timestamp != other.timestamp {
            if self.timestamp < other.timestamp {
                Some(Ordering::Less)
            } else {
                Some(Ordering::Greater)
            }
        } else if self.user_id != other.user_id {
            if self.user_id < other.user_id {
                Some(Ordering::Less)
            } else {
                Some(Ordering::Greater)
            }
        } else if self.item_id != other.item_id {
            if self.item_id < other.item_id {
                Some(Ordering::Less)
            } else {
                Some(Ordering::Greater)
            }
        } else if self.request_id != other.request_id {
            if self.request_id < other.request_id {
                Some(Ordering::Less)
            } else {
                Some(Ordering::Greater)
            }
        } else {
            Some(Ordering::Equal)
        }
    }
}

impl vstd::std_specs::cmp::PartialOrdSpecImpl for SampleKey {
    open spec fn obeys_partial_cmp_spec() -> bool {
        true
    }

    open spec fn partial_cmp_spec(&self, other: &Self) -> Option<Ordering> {
        Some(self.ordering(*other))
    }
}

/// The order of sample keys is the lexicographic order of their four fields:
/// `a < b` holds exactly when the first field in which they differ is smaller
/// in `a`.
pub proof fn lemma_order_is_lexicographic(a: SampleKey, b: SampleKey)
    ensures
        a.partial_cmp_spec(&b) == Some(Ordering::Less) <==> a.timestamp < b.timestamp || (
        a.timestamp == b.timestamp && a.user_id < b.user_id) || (a.timestamp == b.timestamp
            && a.user_id == b.user_id && a.item_id < b.item_id) || (a.timestamp == b.timestamp
            && a.user_id == b.user_id && a.item_id == b.item_id && a.request_id < b.request_id),
        a.partial_cmp_spec(&b) == Some(Ordering::Equal) <==> a == b,
        a.partial_cmp_spec(&b) == Some(Ordering::Greater) <==> b.partial_cmp_spec(&a) == Some(
            Ordering::Less,
        ),
{
}

/// The order is total and strict: of `a < b`, `a == b`, `b < a` exactly one
/// holds, and `<` is transitive.
pub proof fn lemma_order_is_total(a: SampleKey, b: SampleKey, c: SampleKey)
    ensures
        a.lt(b) || a == b || b.lt(a),
        !(a.lt(b) && b.lt(a)),
        !a.lt(a),
        a.lt(b) && b.lt(c) ==> a.lt(c),
        a.le(b) && b.le(c) ==> a.le(c),
{
}

} // verus!
