//! Looking up Wikidata entities for the extraction scripts.

use vstd::prelude::*;

use wikidata_store::WikidataStore;

use crate::text::is_ascii_digit;

verus! {

#[verifier::external_type_specification]
#[verifier::external_body]
pub struct ExWikidataStore(WikidataStore);

/// The shape of a canonical entity id: `Q`, `P` or `L`, then a decimal
/// number without a leading zero.
pub open spec fn entity_id_shaped(id: Seq<char>) -> bool {
    &&& id.len() >= 2
    &&& (id[0] == 'Q' || id[0] == 'P' || id[0] == 'L')
    &&& id[1] != '0'
    &&& forall|i: int| 1 <= i < id.len() ==> is_ascii_digit(#[trigger] id[i])
}

/// How the store reports an id that is not of the canonical shape.
pub open spec fn entity_id_refusal(id: Seq<char>) -> Seq<char> {
    if id.len() == 0 {
        "Invalid input: Wikidata entity ID cannot be empty"@
    } else if !(id[0] == 'Q' || id[0] == 'P' || id[0] == 'L') {
        "Invalid input: Unsupported Wikidata entity ID: "@ + id
    } else if id.len() == 1 {
        "Invalid input: Wikidata entity ID has no numeric component: "@ + id
    } else {
        "Invalid input: Invalid Wikidata entity ID: "@ + id
    }
}

/// The JSON of the entities the store holds, by canonical id: the store is
/// read as a collection that does not change while it is open.
pub uninterp spec fn stored_entities(store: WikidataStore) -> Map<Seq<char>, Seq<u8>>;

/// Reads an entity's stored JSON with `WikidataStore::get_entity_json`,
/// with the store's error as its message. The store parses the id before it
/// reads anything and refuses, with the message above, every id that is not
/// of the canonical shape. JSON it hands back is the stored entity's, and an
/// id it finds nothing for is one it does not hold; when a read fails (a
/// damaged store) is not claimed.
#[verifier::external_body]
fn read_entity_json(store: &WikidataStore, id: &str) -> (r: Result<Option<Vec<u8>>, String>)
    ensures
        r is Ok ==> entity_id_shaped(id@),
        !entity_id_shaped(id@) ==> r is Err && r->Err_0@ == entity_id_refusal(id@),
        r matches Ok(Some(json)) ==> stored_entities(*store).dom().contains(id@)
            && stored_entities(*store)[id@] == json@,
        r matches Ok(None) ==> !stored_entities(*store).dom().contains(id@),
{
    store.get_entity_json(id).map_err(|error| error.to_string())
}

/// The stored JSON of the entity a script asks for: nothing when the script
/// gives no id or no store is configured; otherwise the entity's stored
/// JSON, nothing when the store does not hold it, and an error for an id the
/// store refuses.
pub fn lookup_entity(store: Option<&WikidataStore>, id: Option<&str>) -> (r: Result<
    Option<Vec<u8>>,
    String,
>)
    ensures
        store is None || id is None ==> r == Ok::<Option<Vec<u8>>, String>(None),
        (store is Some && id is Some && r is Ok) ==> entity_id_shaped(id->Some_0@),
        (store is Some && id is Some && !entity_id_shaped(id->Some_0@)) ==> (r matches Err(m)
            && m@ == entity_id_refusal(id->Some_0@)),
        (store is Some && id is Some) ==> (r matches Ok(Some(json)) ==> stored_entities(
            *store->Some_0,
        ).dom().contains(id->Some_0@) && stored_entities(*store->Some_0)[id->Some_0@] == json@),
        (store is Some && id is Some) ==> (r matches Ok(None) ==> !stored_entities(
            *store->Some_0,
        ).dom().contains(id->Some_0@)),
{
    match (store, id) {
        (Some(store), Some(text)) => read_entity_json(store, text),
        _ => Ok(None),
    }
}

} // verus!
