//! Building the key set from the link table.

use crate::key_set::KeySet;
use vstd::prelude::*;

verus! {

/// What a record of the link table holds in its link field.
#[derive(Debug)]
pub enum LinkIdValue {
    /// The record has no such field.
    Missing,
    /// The field is a character field and holds nothing.
    Blank,
    /// The field is a character field and holds this text.
    Text(String),
    /// The field is of another type.
    Other,
}

/// The name of the link field.
pub fn link_id_field() -> (name: &'static str)
    ensures
        name@ == "LINK_ID"@,
{
    "LINK_ID"
}

impl LinkIdValue {
    /// The value is the text `key`.
    pub open spec fn is_text(self, key: Seq<char>) -> bool {
        self matches LinkIdValue::Text(text) && text@ == key
    }
}

/// The texts among the leading `n` values.
pub open spec fn link_ids(values: Seq<LinkIdValue>, n: int) -> Set<Seq<char>> {
    Set::new(|key: Seq<char>| exists|i: int| 0 <= i < n && (#[trigger] values[i]).is_text(key))
}

/// The key set of a link table: the text of each record whose link field is
/// a character field that holds one. Records without the field, with a blank
/// field or with a field of another type add nothing.
pub fn extract_link_id_hashtable(values: &Vec<LinkIdValue>) -> (keys: KeySet)
    ensures
        keys.wf(),
        keys@ == link_ids(values@, values@.len() as int),
{
    let mut keys = KeySet::new();
    let mut i: usize = 0;
    assert(keys@ =~= link_ids(values@, 0));
    while i < values.len()
        invariant
            i <= values@.len(),
            keys.wf(),
            keys@ == link_ids(values@, i as int),
        decreases values@.len() - i,
    {
        let ghost before = keys@;
        match &values[i] {
            LinkIdValue::Text(text) => {
                let _ = keys.insert(text.clone());
                assert(values@[i as int].is_text(text@));
            },
            _ => {},
        }
        assert(keys@ =~= link_ids(values@, i + 1)) by {
            assert forall|key: Seq<char>| link_ids(values@, i + 1).contains(key) implies keys@.contains(
                key,
            ) by {
                let j = choose|j: int| 0 <= j < i + 1 && (#[trigger] values@[j]).is_text(key);
                if j < i {
                    assert(link_ids(values@, i as int).contains(key));
                }
            }
            assert forall|key: Seq<char>| keys@.contains(key) implies link_ids(values@, i + 1).contains(
                key,
            ) by {
                if before.contains(key) {
                    let j = choose|j: int| 0 <= j < i && (#[trigger] values@[j]).is_text(key);
                    assert(values@[j].is_text(key));
                } else {
                    assert(values@[i as int].is_text(key));
                }
            }
        }
        i = i + 1;
    }
    keys
}

} // verus!
