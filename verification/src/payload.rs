//! What a Mutation carries, and the flat JSON object it is stored as.

use vstd::prelude::*;

use crate::domain::{AddressedCounterpart, ItemStatus, MutationType};
use crate::paths::spread;

verus! {

/// What `serde_json` writes for a string: the JSON string literal.
pub uninterp spec fn json_quoted(text: Seq<char>) -> Seq<char>;

/// What `serde_json` reads as the string member of a JSON object; nothing
/// where the text is no JSON, no object, or has no string under the name.
pub uninterp spec fn json_member(text: Seq<char>, member: Seq<char>) -> Option<Seq<char>>;

/// What `serde_json` reads as a JSON array of strings; nothing where the text is
/// none.
pub uninterp spec fn json_strings(text: Seq<char>) -> Option<Seq<Seq<char>>>;

/// One `"key":"value"` of a flat object.
pub open spec fn json_pair(pair: (Seq<char>, Seq<char>)) -> Seq<char> {
    json_quoted(pair.0) + ":"@ + json_quoted(pair.1)
}

/// The pairs of a flat object, in order, parted by commas.
pub open spec fn json_pairs(pairs: Seq<(Seq<char>, Seq<char>)>) -> Seq<char>
    decreases pairs.len(),
{
    if pairs.len() == 0 {
        Seq::empty()
    } else if pairs.len() == 1 {
        json_pair(pairs[0])
    } else {
        json_pairs(pairs.drop_last()) + ","@ + json_pair(pairs.last())
    }
}

/// A JSON object whose members are all strings.
pub open spec fn json_object(pairs: Seq<(Seq<char>, Seq<char>)>) -> Seq<char> {
    "{"@ + json_pairs(pairs) + "}"@
}

/// No key stands twice.
pub open spec fn distinct_keys(pairs: Seq<(Seq<char>, Seq<char>)>) -> bool {
    forall|i: int, j: int|
        0 <= i < j < pairs.len() ==> (#[trigger] pairs[i]).0 != (#[trigger] pairs[j]).0
}

/// `serde_json::to_string` on a string. It never fails there, and the result
/// depends on the string alone.
#[verifier::external_body]
fn quoted(text: &str) -> (r: String)
    ensures
        r@ == json_quoted(text@),
{
    serde_json::to_string(text).unwrap()
}

/// `serde_json::from_str` to a `serde_json::Value`, then `Value::get` and the
/// string that it holds. The result depends on the two texts alone. Of a flat
/// object with distinct keys, as written by `serde_json::to_string` for its
/// strings, it gives back the value that stands under the name. A `Value` keeps
/// the last of the members that stand under one name, so a name that stands
/// twice is no fault here.
#[verifier::external_body]
pub(crate) fn read_member(text: &str, member: &str) -> (r: Option<String>)
    ensures
        match r {
            Some(value) => json_member(text@, member@) == Some(value@),
            None => json_member(text@, member@) is None,
        },
        (forall|pairs: Seq<(Seq<char>, Seq<char>)>, i: int|
            #![trigger json_object(pairs), pairs[i]]
            0 <= i < pairs.len() && text@ == json_object(pairs) && distinct_keys(pairs)
                && pairs[i].0 == member@ ==> r is Some && r->0@ == pairs[i].1),
{
    let value: serde_json::Value = match serde_json::from_str(text) {
        Ok(value) => value,
        Err(_) => return None,
    };
    match value.get(member) {
        Some(serde_json::Value::String(found)) => Some(found.clone()),
        _ => None,
    }
}

/// `serde_json::from_str` to a vector of strings: it gives one where the text is
/// a JSON array of strings. The result depends on the text alone.
#[verifier::external_body]
fn read_strings(text: &str) -> (r: Option<Vec<String>>)
    ensures
        match r {
            Some(values) => json_strings(text@) == Some(spread(values@)),
            None => json_strings(text@) is None,
        },
{
    serde_json::from_str(text).ok()
}

/// Title and body of an Item.
#[derive(Clone, Debug, PartialEq, Eq)]
pub struct TitleBody {
    pub title: String,
    pub body: String,
}

/// The Epic that a Ticket joins or leaves.
#[derive(Clone, Debug, PartialEq, Eq)]
pub struct EpicRef {
    pub epic_id: String,
}

/// The status that an Item reaches.
#[derive(Clone, Debug, PartialEq, Eq)]
pub struct StatusChange {
    pub status: ItemStatus,
}

/// The Item that blocks the target.
#[derive(Clone, Debug, PartialEq, Eq)]
pub struct DependencyRef {
    pub blocking_id: String,
}

/// The Item as it stood when its Promotion was committed, and the Backend it
/// is meant for.
#[derive(Clone, Debug, PartialEq, Eq)]
pub struct Promotion {
    pub title: String,
    pub body: String,
    pub backend_kind: String,
}

/// The model of [`Promotion`].
#[verifier::ext_equal]
pub struct PromotionView {
    pub title: Seq<char>,
    pub body: Seq<char>,
    pub backend_kind: Seq<char>,
}

impl View for Promotion {
    type V = PromotionView;

    open spec fn view(&self) -> PromotionView {
        PromotionView {
            title: self.title@,
            body: self.body@,
            backend_kind: self.backend_kind@,
        }
    }
}

/// What a Mutation carries.
#[derive(Clone, Debug, PartialEq, Eq)]
pub enum MutationPayload {
    UpdateTitleBody(TitleBody),
    EpicRef(EpicRef),
    ItemStatus(StatusChange),
    DependencyRef(DependencyRef),
    Promotion(Promotion),
}

/// The members of the JSON object for a title and a body.
pub open spec fn title_body_pairs(title: Seq<char>, body: Seq<char>) -> Seq<(Seq<char>, Seq<char>)> {
    seq![("title"@, title), ("body"@, body)]
}

/// The members of the JSON object for a reference to an Epic.
pub open spec fn epic_pairs(epic_id: Seq<char>) -> Seq<(Seq<char>, Seq<char>)> {
    seq![("epic_id"@, epic_id)]
}

/// The members of the JSON object for a status.
pub open spec fn status_pairs(status: ItemStatus) -> Seq<(Seq<char>, Seq<char>)> {
    seq![("status"@, status.name())]
}

/// The members of the JSON object for a reference to a blocking Item.
pub open spec fn dependency_pairs(blocking_id: Seq<char>) -> Seq<(Seq<char>, Seq<char>)> {
    seq![("blocking_id"@, blocking_id)]
}

/// The members of the JSON object for a Promotion.
pub open spec fn promotion_pairs(promotion: PromotionView) -> Seq<(Seq<char>, Seq<char>)> {
    seq![
        ("title"@, promotion.title),
        ("body"@, promotion.body),
        ("backend_kind"@, promotion.backend_kind),
    ]
}

impl MutationPayload {
    /// The members of the JSON object that the payload is stored as.
    pub open spec fn pairs(&self) -> Seq<(Seq<char>, Seq<char>)> {
        match self {
            MutationPayload::UpdateTitleBody(p) => title_body_pairs(p.title@, p.body@),
            MutationPayload::EpicRef(p) => epic_pairs(p.epic_id@),
            MutationPayload::ItemStatus(p) => status_pairs(p.status),
            MutationPayload::DependencyRef(p) => dependency_pairs(p.blocking_id@),
            MutationPayload::Promotion(p) => promotion_pairs(p@),
        }
    }

    /// The flat JSON object that the payload is stored as.
    pub fn to_json_string(&self) -> (r: String)
        ensures
            r@ == json_object(self.pairs()),
    {
        let mut out = "{".to_owned();
        match self {
            MutationPayload::UpdateTitleBody(p) => {
                push_pair(&mut out, "title", p.title.as_str());
                out.append(",");
                push_pair(&mut out, "body", p.body.as_str());
            },
            MutationPayload::EpicRef(p) => {
                push_pair(&mut out, "epic_id", p.epic_id.as_str());
            },
            MutationPayload::ItemStatus(p) => {
                push_pair(&mut out, "status", p.status.text());
            },
            MutationPayload::DependencyRef(p) => {
                push_pair(&mut out, "blocking_id", p.blocking_id.as_str());
            },
            MutationPayload::Promotion(p) => {
                push_pair(&mut out, "title", p.title.as_str());
                out.append(",");
                push_pair(&mut out, "body", p.body.as_str());
                out.append(",");
                push_pair(&mut out, "backend_kind", p.backend_kind.as_str());
            },
        }
        out.append("}");
        proof {
            let pairs = self.pairs();
            reveal_with_fuel(json_pairs, 4);
            if pairs.len() == 1 {
                assert(out@ =~= json_object(pairs));
            } else if pairs.len() == 2 {
                assert(pairs.drop_last() =~= seq![pairs[0]]);
                assert(out@ =~= json_object(pairs));
            } else {
                assert(pairs.drop_last() =~= seq![pairs[0], pairs[1]]);
                assert(pairs.drop_last().drop_last() =~= seq![pairs[0]]);
                assert(out@ =~= json_object(pairs));
            }
        }
        out
    }
}

fn push_pair(out: &mut String, key: &str, value: &str)
    ensures
        final(out)@ == old(out)@ + json_pair((key@, value@)),
{
    let k = quoted(key);
    let v = quoted(value);
    out.append(k.as_str());
    out.append(":");
    out.append(v.as_str());
    proof {
        assert(out@ =~= old(out)@ + json_pair((key@, value@)));
    }
}

/// A stored payload that does not hold what its Mutation Type promises.
#[derive(Clone, Copy, Debug, PartialEq, Eq, Structural)]
pub struct MalformedPayload;

/// The Promotion that a stored payload holds, if it holds one: as an object with
/// the three members, or as the array of the three values.
pub open spec fn promotion_in(payload: Seq<char>) -> Option<PromotionView> {
    match (
        json_member(payload, "title"@),
        json_member(payload, "body"@),
        json_member(payload, "backend_kind"@),
    ) {
        (Some(title), Some(body), Some(backend_kind)) => Some(
            PromotionView { title, body, backend_kind },
        ),
        _ => match json_strings(payload) {
            Some(values) => if values.len() == 3 {
                Some(
                    PromotionView { title: values[0], body: values[1], backend_kind: values[2] },
                )
            } else {
                None
            },
            None => None,
        },
    }
}

/// The keys of a Promotion's payload are distinct.
proof fn lemma_promotion_keys(p: PromotionView)
    ensures
        distinct_keys(promotion_pairs(p)),
{
    reveal_strlit("title");
    reveal_strlit("body");
    reveal_strlit("backend_kind");
    assert("title"@.len() == 5);
    assert("body"@.len() == 4);
    assert("backend_kind"@.len() == 12);
}

/// Read a Promotion from a stored payload. A payload written for a Promotion
/// is read back as that Promotion.
pub fn read_promotion(payload: &str) -> (r: Result<Promotion, MalformedPayload>)
    ensures
        match r {
            Ok(promotion) => promotion_in(payload@) == Some(promotion@),
            Err(_) => promotion_in(payload@) is None,
        },
        forall|p: PromotionView|
            payload@ == json_object(#[trigger] promotion_pairs(p)) ==> r is Ok && r->Ok_0@ == p,
{
    let title = read_member(payload, "title");
    let body = read_member(payload, "body");
    let backend_kind = read_member(payload, "backend_kind");
    proof {
        assert forall|p: PromotionView|
            payload@ == json_object(#[trigger] promotion_pairs(p)) implies title is Some
            && title->0@ == p.title && body is Some && body->0@ == p.body && backend_kind is Some
            && backend_kind->0@ == p.backend_kind by {
            lemma_promotion_keys(p);
            let pairs = promotion_pairs(p);
            assert(pairs[0].0 == "title"@);
            assert(pairs[1].0 == "body"@);
            assert(pairs[2].0 == "backend_kind"@);
        }
    }
    match (title, body, backend_kind) {
        (Some(title), Some(body), Some(backend_kind)) => Ok(
            Promotion { title, body, backend_kind },
        ),
        _ => match read_strings(payload) {
            Some(values) => if values.len() == 3 {
                Ok(
                    Promotion {
                        title: values[0].clone(),
                        body: values[1].clone(),
                        backend_kind: values[2].clone(),
                    },
                )
            } else {
                Err(MalformedPayload)
            },
            None => Err(MalformedPayload),
        },
    }
}

/// The one string that a stored payload holds, if it holds one: as the member of
/// an object, or as the only value of an array.
pub open spec fn single_in(payload: Seq<char>, member: Seq<char>) -> Option<Seq<char>> {
    if json_member(payload, member) is Some {
        json_member(payload, member)
    } else {
        match json_strings(payload) {
            Some(values) => if values.len() == 1 {
                Some(values[0])
            } else {
                None
            },
            None => None,
        }
    }
}

fn read_single(payload: &str, member: &str) -> (r: Option<String>)
    ensures
        match r {
            Some(value) => single_in(payload@, member@) == Some(value@),
            None => single_in(payload@, member@) is None,
        },
        (forall|pairs: Seq<(Seq<char>, Seq<char>)>|
            #![trigger json_object(pairs)]
            pairs.len() == 1 && payload@ == json_object(pairs) && pairs[0].0 == member@
                ==> r is Some && r->0@ == pairs[0].1),
{
    match read_member(payload, member) {
        Some(found) => Some(found),
        None => match read_strings(payload) {
            Some(values) => if values.len() == 1 {
                Some(values[0].clone())
            } else {
                None
            },
            None => None,
        },
    }
}

/// The further Item that a stored payload names, by the Mutation's type:
/// `None` where the payload does not hold what the type promises.
pub open spec fn counterpart_in(
    mutation_type: MutationType,
    payload: Seq<char>,
) -> Option<Option<Seq<char>>> {
    match mutation_type.counterpart() {
        AddressedCounterpart::Nothing => Some(None),
        AddressedCounterpart::Epic => match single_in(payload, "epic_id"@) {
            Some(id) => Some(Some(id)),
            None => None,
        },
        AddressedCounterpart::BlockingItem => match single_in(payload, "blocking_id"@) {
            Some(id) => Some(Some(id)),
            None => None,
        },
    }
}

/// Decode the internal Item ID addressed as a Mutation's counterpart.
///
/// The Mutation Type owns whether its payload addresses an Epic, a Blocking
/// Item, or no counterpart. A payload written for an Epic or for a blocking
/// Item gives that Item back.
pub fn addressed_counterpart_id(mutation_type: MutationType, payload_json: &str) -> (r: Result<
    Option<String>,
    MalformedPayload,
>)
    ensures
        match r {
            Ok(Some(id)) => counterpart_in(mutation_type, payload_json@) == Some(Some(id@)),
            Ok(None) => counterpart_in(mutation_type, payload_json@) == Some(None::<Seq<char>>),
            Err(_) => counterpart_in(mutation_type, payload_json@) is None,
        },
        forall|id: Seq<char>|
            mutation_type.counterpart() == AddressedCounterpart::Epic && payload_json@
                == json_object(#[trigger] epic_pairs(id)) ==> r is Ok && r->Ok_0 is Some
                && r->Ok_0->0@ == id,
        forall|id: Seq<char>|
            mutation_type.counterpart() == AddressedCounterpart::BlockingItem && payload_json@
                == json_object(#[trigger] dependency_pairs(id)) ==> r is Ok && r->Ok_0 is Some
                && r->Ok_0->0@ == id,
{
    let found = match mutation_type.addressed_counterpart() {
        AddressedCounterpart::Nothing => {
            return Ok(None);
        },
        AddressedCounterpart::Epic => read_single(payload_json, "epic_id"),
        AddressedCounterpart::BlockingItem => read_single(payload_json, "blocking_id"),
    };
    proof {
        assert forall|id: Seq<char>|
            mutation_type.counterpart() == AddressedCounterpart::Epic && payload_json@
                == json_object(#[trigger] epic_pairs(id)) implies found is Some && found->0@ == id by {
            assert(epic_pairs(id)[0].0 == "epic_id"@);
        }
        assert forall|id: Seq<char>|
            mutation_type.counterpart() == AddressedCounterpart::BlockingItem && payload_json@
                == json_object(#[trigger] dependency_pairs(id)) implies found is Some && found->0@
            == id by {
            assert(dependency_pairs(id)[0].0 == "blocking_id"@);
        }
    }
    match found {
        Some(id) => Ok(Some(id)),
        None => Err(MalformedPayload),
    }
}

} // verus!
