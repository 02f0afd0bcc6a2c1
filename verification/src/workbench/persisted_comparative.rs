//! Comparative specimens over persisted AU workbench documents: each side goes
//! through the same projection as a single document, and a persisted overlay may
//! only explain objects that the persisted graphs hold, never promote them.
use vstd::prelude::*;

use super::au_fact_review::{
    au_json_result, lemma_projection_edges_anchored, project_persisted_au_workbench_json, AuFactReviewProjection,
};
use super::comparative::{
    comparative_model, comparative_workbench_read_model_with_overlay, three_way_comparative_sequence_with_overlays,
    three_way_sequence, ComparativeExplanationOverlay, ComparativeSelectors,
    ComparativeWorkbenchReadModel, OverlayView, SelectorsView, ThreeWayComparativeSequence,
};
use crate::json::{blank, deref_opt, is_blank, json_get, JsonValue};
use crate::visual::comparative::{edges_anchored, pair_fits_ids};
use crate::refs::{lemma_sorted_enumeration, sorted_enumeration, RefMap, RefSet};
use crate::visual::ir::{EdgeView, GraphIr, GraphView, NodeView};

verus! {

/// An overlay as persisted beside two workbench documents.
#[derive(Debug, Clone, PartialEq, Eq)]
pub struct PersistedComparativeOverlay {
    pub change_layer_by_semantic_ref: RefMap,
    pub explanation_by_semantic_ref: RefMap,
    pub answer_changing_semantic_refs: RefSet,
    pub unresolved_semantic_refs: RefSet,
    pub creates_semantic_authority: bool,
    pub creates_claim_truth: bool,
}

impl View for PersistedComparativeOverlay {
    type V = OverlayView;

    open spec fn view(&self) -> OverlayView {
        OverlayView {
            change_layer_by_semantic_ref: self.change_layer_by_semantic_ref@,
            explanation_by_semantic_ref: self.explanation_by_semantic_ref@,
            answer_changing_semantic_refs: self.answer_changing_semantic_refs@,
            unresolved_semantic_refs: self.unresolved_semantic_refs@,
            creates_semantic_authority: self.creates_semantic_authority,
            creates_claim_truth: self.creates_claim_truth,
        }
    }
}

impl Default for PersistedComparativeOverlay {
    fn default() -> (o: Self)
        ensures
            o@.change_layer_by_semantic_ref == Map::<Seq<char>, Seq<char>>::empty(),
            o@.explanation_by_semantic_ref == Map::<Seq<char>, Seq<char>>::empty(),
            o@.answer_changing_semantic_refs.len() == 0,
            o@.unresolved_semantic_refs.len() == 0,
            !o@.creates_semantic_authority,
            !o@.creates_claim_truth,
    {
        PersistedComparativeOverlay {
            change_layer_by_semantic_ref: RefMap::new(),
            explanation_by_semantic_ref: RefMap::new(),
            answer_changing_semantic_refs: RefSet::new(),
            unresolved_semantic_refs: RefSet::new(),
            creates_semantic_authority: false,
            creates_claim_truth: false,
        }
    }
}

/// An overlay that claims semantic authority or claim truth crosses the
/// non-promotion boundary.
pub open spec fn promotes(o: OverlayView) -> bool {
    o.creates_semantic_authority || o.creates_claim_truth
}

pub open spec fn promotion_message() -> Seq<char> {
    "persisted comparative overlay crossed non-promotion boundary"@
}

impl PersistedComparativeOverlay {
    /// Refuses an overlay that claims authority or truth.
    pub fn validate(&self) -> (r: Result<(), String>)
        ensures
            match r {
                Ok(()) => !promotes(self@),
                Err(e) => promotes(self@) && e@ == promotion_message(),
            },
    {
        if self.creates_semantic_authority || self.creates_claim_truth {
            return Err(String::from_str("persisted comparative overlay crossed non-promotion boundary"));
        }
        Ok(())
    }

    /// The overlay the read model carries, once validated.
    pub fn into_read_model_overlay(self) -> (r: Result<ComparativeExplanationOverlay, String>)
        ensures
            match r {
                Ok(o) => !promotes(self@) && o@ == self@,
                Err(e) => promotes(self@) && e@ == promotion_message(),
            },
    {
        self.validate()?;
        Ok(
            ComparativeExplanationOverlay {
                change_layer_by_semantic_ref: self.change_layer_by_semantic_ref,
                explanation_by_semantic_ref: self.explanation_by_semantic_ref,
                answer_changing_semantic_refs: self.answer_changing_semantic_refs,
                unresolved_semantic_refs: self.unresolved_semantic_refs,
                creates_semantic_authority: false,
                creates_claim_truth: false,
            },
        )
    }
}

// ---------------------------------------------------------------------------
// Reading a persisted overlay out of its JSON value.
// ---------------------------------------------------------------------------

/// The text of a string value (nothing for any other value).
pub open spec fn text_of(v: JsonValue) -> Seq<char> {
    match v {
        JsonValue::String(s) => s@,
        _ => Seq::empty(),
    }
}

/// A map of strings: absent is empty, otherwise an object whose members are all strings.
pub open spec fn string_map_ok(v: Option<JsonValue>) -> bool {
    match v {
        None => true,
        Some(JsonValue::Object(m)) => forall|i: int| 0 <= i < m@.len() ==> (#[trigger] m@[i]).1 is String,
        _ => false,
    }
}

/// The entries of `members`, a later member replacing an earlier one of the same name.
pub open spec fn members_map(members: Seq<(String, JsonValue)>) -> Map<Seq<char>, Seq<char>>
    decreases members.len(),
{
    if members.len() == 0 {
        Map::empty()
    } else {
        members_map(members.drop_last()).insert(members.last().0@, text_of(members.last().1))
    }
}

pub open spec fn string_map_of(v: Option<JsonValue>) -> Map<Seq<char>, Seq<char>> {
    match v {
        Some(JsonValue::Object(m)) => members_map(m@),
        _ => Map::empty(),
    }
}

/// A set of strings: absent is empty, otherwise an array of strings.
pub open spec fn string_set_ok(v: Option<JsonValue>) -> bool {
    match v {
        None => true,
        Some(JsonValue::Array(items)) => forall|i: int| 0 <= i < items@.len() ==> #[trigger] items@[i] is String,
        _ => false,
    }
}

pub open spec fn string_set_of(v: Option<JsonValue>) -> Set<Seq<char>> {
    match v {
        Some(JsonValue::Array(items)) => items@.map_values(|x: JsonValue| text_of(x)).to_set(),
        _ => Set::empty(),
    }
}

/// A flag: absent is false, otherwise a boolean.
pub open spec fn flag_ok(v: Option<JsonValue>) -> bool {
    match v {
        None => true,
        Some(JsonValue::Bool(_)) => true,
        _ => false,
    }
}

pub open spec fn flag_of(v: Option<JsonValue>) -> bool {
    match v {
        Some(JsonValue::Bool(b)) => b,
        _ => false,
    }
}

/// Whether `v` has the shape of a persisted overlay. Every field may be absent;
/// members that the overlay does not name are ignored.
pub open spec fn overlay_decodable(v: JsonValue) -> bool {
    &&& v is Object
    &&& string_map_ok(json_get(v, "change_layer_by_semantic_ref"@))
    &&& string_map_ok(json_get(v, "explanation_by_semantic_ref"@))
    &&& string_set_ok(json_get(v, "answer_changing_semantic_refs"@))
    &&& string_set_ok(json_get(v, "unresolved_semantic_refs"@))
    &&& flag_ok(json_get(v, "creates_semantic_authority"@))
    &&& flag_ok(json_get(v, "creates_claim_truth"@))
}

/// The overlay that `v` reads as.
pub open spec fn overlay_of(v: JsonValue) -> OverlayView {
    OverlayView {
        change_layer_by_semantic_ref: string_map_of(json_get(v, "change_layer_by_semantic_ref"@)),
        explanation_by_semantic_ref: string_map_of(json_get(v, "explanation_by_semantic_ref"@)),
        answer_changing_semantic_refs: sorted_enumeration(string_set_of(json_get(v, "answer_changing_semantic_refs"@))),
        unresolved_semantic_refs: sorted_enumeration(string_set_of(json_get(v, "unresolved_semantic_refs"@))),
        creates_semantic_authority: flag_of(json_get(v, "creates_semantic_authority"@)),
        creates_claim_truth: flag_of(json_get(v, "creates_claim_truth"@)),
    }
}

/// Why `v` does not read as an overlay: the first field, in declaration order, that is amiss.
pub open spec fn overlay_error(v: JsonValue) -> Seq<char> {
    if !(v is Object) {
        "expected an object"@
    } else if !string_map_ok(json_get(v, "change_layer_by_semantic_ref"@)) {
        "invalid `change_layer_by_semantic_ref`, expected a map of strings"@
    } else if !string_map_ok(json_get(v, "explanation_by_semantic_ref"@)) {
        "invalid `explanation_by_semantic_ref`, expected a map of strings"@
    } else if !string_set_ok(json_get(v, "answer_changing_semantic_refs"@)) {
        "invalid `answer_changing_semantic_refs`, expected an array of strings"@
    } else if !string_set_ok(json_get(v, "unresolved_semantic_refs"@)) {
        "invalid `unresolved_semantic_refs`, expected an array of strings"@
    } else if !flag_ok(json_get(v, "creates_semantic_authority"@)) {
        "invalid type for `creates_semantic_authority`, expected a boolean"@
    } else {
        "invalid type for `creates_claim_truth`, expected a boolean"@
    }
}

pub open spec fn overlay_error_message(v: JsonValue) -> Seq<char> {
    "invalid comparative overlay JSON: "@ + overlay_error(v)
}

fn decode_string_map(v: Option<&JsonValue>) -> (r: Option<RefMap>)
    ensures
        match r {
            Some(m) => string_map_ok(deref_opt(v)) && m@ == string_map_of(deref_opt(v)),
            None => !string_map_ok(deref_opt(v)),
        },
{
    match v {
        None => Some(RefMap::new()),
        Some(JsonValue::Object(members)) => {
            let mut m = RefMap::new();
            let mut i: usize = 0;
            assert(members@.subrange(0, 0).len() == 0);
            while i < members.len()
                invariant
                    i <= members@.len(),
                    forall|k: int| 0 <= k < i ==> (#[trigger] members@[k]).1 is String,
                    m@ == members_map(members@.subrange(0, i as int)),
                    deref_opt(v) == Some(JsonValue::Object(*members)),
                decreases members@.len() - i,
            {
                let ghost p = members@.subrange(0, i + 1);
                assert(p.drop_last() =~= members@.subrange(0, i as int));
                match &members[i].1 {
                    JsonValue::String(s) => {
                        m.insert(members[i].0.clone(), s.clone());
                    },
                    _ => {
                        return None;
                    },
                }
                i = i + 1;
            }
            assert(members@.subrange(0, i as int) =~= members@);
            Some(m)
        },
        _ => None,
    }
}

fn decode_string_set(v: Option<&JsonValue>) -> (r: Option<RefSet>)
    ensures
        match r {
            Some(s) => string_set_ok(deref_opt(v)) && s@ == sorted_enumeration(string_set_of(deref_opt(v))),
            None => !string_set_ok(deref_opt(v)),
        },
{
    match v {
        None => {
            let s = RefSet::new();
            proof {
                lemma_sorted_enumeration(s@);
                assert(s@.to_set() =~= Set::<Seq<char>>::empty());
            }
            Some(s)
        },
        Some(JsonValue::Array(items)) => {
            let ghost texts = items@.map_values(|x: JsonValue| text_of(x));
            let mut s = RefSet::new();
            let mut i: usize = 0;
            while i < items.len()
                invariant
                    i <= items@.len(),
                    texts == items@.map_values(|x: JsonValue| text_of(x)),
                    forall|k: int| 0 <= k < i ==> #[trigger] items@[k] is String,
                    s@.to_set() == texts.subrange(0, i as int).to_set(),
                    deref_opt(v) == Some(JsonValue::Array(*items)),
                decreases items@.len() - i,
            {
                match &items[i] {
                    JsonValue::String(t) => {
                        s.insert(t.clone());
                    },
                    _ => {
                        return None;
                    },
                }
                proof {
                    assert(texts.subrange(0, i + 1) =~= texts.subrange(0, i as int).push(texts[i as int]));
                    texts.subrange(0, i as int).lemma_push_to_set_commute(texts[i as int]);
                    assert(s@.to_set() =~= texts.subrange(0, i + 1).to_set());
                }
                i = i + 1;
            }
            proof {
                assert(texts.subrange(0, i as int) =~= texts);
                use_type_invariant(&s);
                lemma_sorted_enumeration(s@);
            }
            Some(s)
        },
        _ => None,
    }
}

fn decode_flag(v: Option<&JsonValue>) -> (r: Option<bool>)
    ensures
        match r {
            Some(b) => flag_ok(deref_opt(v)) && b == flag_of(deref_opt(v)),
            None => !flag_ok(deref_opt(v)),
        },
{
    match v {
        None => Some(false),
        Some(JsonValue::Bool(b)) => Some(*b),
        _ => None,
    }
}

fn invalid_overlay(reason: &str) -> (e: String)
    ensures
        e@ == "invalid comparative overlay JSON: "@ + reason@,
{
    let mut e = String::from_str("invalid comparative overlay JSON: ");
    e.append(reason);
    e
}

/// Reads a persisted overlay out of its JSON value. Maps are objects of strings
/// (a later member replaces an earlier one of the same name), sets are arrays of
/// strings, flags are booleans; each may be absent.
///
/// A refusal keeps the prefix `invalid comparative overlay JSON: `; the detail
/// after it is this library's own wording (`overlay_error`), naming the first
/// member that does not fit, not a message of a JSON library.
pub fn decode_persisted_overlay(v: &JsonValue) -> (r: Result<PersistedComparativeOverlay, String>)
    ensures
        match r {
            Ok(o) => overlay_decodable(*v) && o@ == overlay_of(*v),
            Err(e) => !overlay_decodable(*v) && e@ == overlay_error_message(*v),
        },
{
    if !(v matches JsonValue::Object(_)) {
        return Err(invalid_overlay("expected an object"));
    }
    let change_layer = match decode_string_map(v.get("change_layer_by_semantic_ref")) {
        Some(m) => m,
        None => {
            return Err(invalid_overlay("invalid `change_layer_by_semantic_ref`, expected a map of strings"));
        },
    };
    let explanation = match decode_string_map(v.get("explanation_by_semantic_ref")) {
        Some(m) => m,
        None => {
            return Err(invalid_overlay("invalid `explanation_by_semantic_ref`, expected a map of strings"));
        },
    };
    let answer_changing = match decode_string_set(v.get("answer_changing_semantic_refs")) {
        Some(s) => s,
        None => {
            return Err(invalid_overlay("invalid `answer_changing_semantic_refs`, expected an array of strings"));
        },
    };
    let unresolved = match decode_string_set(v.get("unresolved_semantic_refs")) {
        Some(s) => s,
        None => {
            return Err(invalid_overlay("invalid `unresolved_semantic_refs`, expected an array of strings"));
        },
    };
    let authority = match decode_flag(v.get("creates_semantic_authority")) {
        Some(b) => b,
        None => {
            return Err(invalid_overlay("invalid type for `creates_semantic_authority`, expected a boolean"));
        },
    };
    let truth = match decode_flag(v.get("creates_claim_truth")) {
        Some(b) => b,
        None => {
            return Err(invalid_overlay("invalid type for `creates_claim_truth`, expected a boolean"));
        },
    };
    Ok(
        PersistedComparativeOverlay {
            change_layer_by_semantic_ref: change_layer,
            explanation_by_semantic_ref: explanation,
            answer_changing_semantic_refs: answer_changing,
            unresolved_semantic_refs: unresolved,
            creates_semantic_authority: authority,
            creates_claim_truth: truth,
        },
    )
}

// ---------------------------------------------------------------------------
// An overlay against the persisted graphs it explains.
// ---------------------------------------------------------------------------

/// The semantic references of a graph's nodes and edges.
pub open spec fn graph_semantic_refs(g: GraphView) -> Set<Seq<char>> {
    g.nodes.map_values(|n: NodeView| n.semantic_ref).to_set().union(
        g.edges.map_values(|e: EdgeView| e.semantic_ref).to_set(),
    )
}

/// Every semantic reference an overlay names.
pub open spec fn overlay_refs(o: OverlayView) -> Set<Seq<char>> {
    o.change_layer_by_semantic_ref.dom().union(o.explanation_by_semantic_ref.dom()).union(
        o.answer_changing_semantic_refs.to_set(),
    ).union(o.unresolved_semantic_refs.to_set())
}

/// The references the overlay names that neither graph holds.
pub open spec fn missing_refs(o: OverlayView, l: GraphView, r: GraphView) -> Set<Seq<char>> {
    overlay_refs(o).difference(graph_semantic_refs(l).union(graph_semantic_refs(r)))
}

/// Rust's `Debug` text of a string: the string in double quotes, with
/// backslashes, double quotes, control characters, unprintable characters and
/// grapheme-extending marks
/// written as escapes (a single quote is left as it is).
pub uninterp spec fn debug_text(s: Seq<char>) -> Seq<char>;

/// The `Debug` texts of `refs`, separated by `", "`.
pub open spec fn debug_list(refs: Seq<Seq<char>>) -> Seq<char>
    decreases refs.len(),
{
    if refs.len() == 0 {
        Seq::empty()
    } else if refs.len() == 1 {
        debug_text(refs[0])
    } else {
        debug_list(refs.drop_last()) + ", "@ + debug_text(refs.last())
    }
}

/// The refusal of an overlay that names absent objects: the set of them as `Debug` writes it.
pub open spec fn missing_message(missing: Set<Seq<char>>) -> Seq<char> {
    "comparative overlay references semantic objects absent from persisted graphs: {"@ + debug_list(
        sorted_enumeration(missing),
    ) + "}"@
}

/// The first node that carries semantic reference `r`.
pub open spec fn first_node_with_ref(nodes: Seq<NodeView>, r: Seq<char>) -> Option<NodeView>
    decreases nodes.len(),
{
    if nodes.len() == 0 {
        None
    } else if nodes[0].semantic_ref == r {
        Some(nodes[0])
    } else {
        first_node_with_ref(nodes.drop_first(), r)
    }
}

/// The first edge that carries semantic reference `r`.
pub open spec fn first_edge_with_ref(edges: Seq<EdgeView>, r: Seq<char>) -> Option<EdgeView>
    decreases edges.len(),
{
    if edges.len() == 0 {
        None
    } else if edges[0].semantic_ref == r {
        Some(edges[0])
    } else {
        first_edge_with_ref(edges.drop_first(), r)
    }
}

/// Whether the first node, or else the first edge, that carries `r` in `g` has both
/// source and provenance references.
pub open spec fn closure_backed(g: GraphView, r: Seq<char>) -> bool {
    (match first_node_with_ref(g.nodes, r) {
        Some(n) => n.source_refs.len() > 0 && n.provenance_refs.len() > 0,
        None => false,
    }) || (match first_edge_with_ref(g.edges, r) {
        Some(e) => e.source_refs.len() > 0 && e.provenance_refs.len() > 0,
        None => false,
    })
}

/// The first of `refs` that neither graph backs with source and provenance.
pub open spec fn first_unbacked(refs: Seq<Seq<char>>, l: GraphView, r: GraphView) -> Option<Seq<char>>
    decreases refs.len(),
{
    if refs.len() == 0 {
        None
    } else if !closure_backed(l, refs[0]) && !closure_backed(r, refs[0]) {
        Some(refs[0])
    } else {
        first_unbacked(refs.drop_first(), l, r)
    }
}

pub open spec fn closure_message(r: Seq<char>) -> Seq<char> {
    "answer-changing semantic object lacks source/provenance closure: "@ + r
}

/// What is wrong with an overlay over two graphs, if anything: it names objects the
/// graphs do not hold, or it declares an answer change that no graph backs.
pub open spec fn overlay_check(o: OverlayView, l: GraphView, r: GraphView) -> Option<Seq<char>> {
    let missing = missing_refs(o, l, r);
    if missing != Set::<Seq<char>>::empty() {
        Some(missing_message(missing))
    } else {
        match first_unbacked(o.answer_changing_semantic_refs, l, r) {
            Some(x) => Some(closure_message(x)),
            None => None,
        }
    }
}

/// `format!("{s:?}")`: std's `Debug` formatting of a string, named `debug_text`
/// here; which characters it escapes, and how, is left to std.
#[verifier::external_body]
fn debug_quoted(s: &str) -> (r: String)
    ensures
        r@ == debug_text(s@),
{
    format!("{s:?}")
}

fn add_graph_refs(g: &GraphIr, out: &mut RefSet)
    ensures
        final(out)@.to_set() == old(out)@.to_set().union(graph_semantic_refs(g@)),
{
    let ghost start = out@.to_set();
    let ghost ns = g@.nodes.map_values(|n: NodeView| n.semantic_ref);
    let ghost es = g@.edges.map_values(|e: EdgeView| e.semantic_ref);
    let mut i: usize = 0;
    while i < g.nodes.len()
        invariant
            i <= g.nodes@.len(),
            ns == g@.nodes.map_values(|n: NodeView| n.semantic_ref),
            out@.to_set() == start.union(ns.subrange(0, i as int).to_set()),
        decreases g.nodes@.len() - i,
    {
        out.insert(g.nodes[i].semantic_ref.clone());
        proof {
            assert(ns.subrange(0, i + 1) =~= ns.subrange(0, i as int).push(ns[i as int]));
            ns.subrange(0, i as int).lemma_push_to_set_commute(ns[i as int]);
            assert(out@.to_set() =~= start.union(ns.subrange(0, i + 1).to_set()));
        }
        i = i + 1;
    }
    assert(ns.subrange(0, i as int) =~= ns);
    let ghost mid = out@.to_set();
    let mut j: usize = 0;
    while j < g.edges.len()
        invariant
            j <= g.edges@.len(),
            es == g@.edges.map_values(|e: EdgeView| e.semantic_ref),
            out@.to_set() == mid.union(es.subrange(0, j as int).to_set()),
        decreases g.edges@.len() - j,
    {
        out.insert(g.edges[j].semantic_ref.clone());
        proof {
            assert(es.subrange(0, j + 1) =~= es.subrange(0, j as int).push(es[j as int]));
            es.subrange(0, j as int).lemma_push_to_set_commute(es[j as int]);
            assert(out@.to_set() =~= mid.union(es.subrange(0, j + 1).to_set()));
        }
        j = j + 1;
    }
    assert(es.subrange(0, j as int) =~= es);
    assert(out@.to_set() =~= start.union(graph_semantic_refs(g@)));
}

fn overlay_ref_set(o: &ComparativeExplanationOverlay) -> (s: RefSet)
    ensures
        s@.to_set() == overlay_refs(o@),
{
    let mut s = RefSet::new();
    s.insert_all(&o.change_layer_by_semantic_ref.keys().to_vec());
    s.insert_all(&o.explanation_by_semantic_ref.keys().to_vec());
    s.insert_all(&o.answer_changing_semantic_refs.to_vec());
    s.insert_all(&o.unresolved_semantic_refs.to_vec());
    assert(s@.to_set() =~= overlay_refs(o@));
    s
}

fn missing_text(missing: &RefSet) -> (t: String)
    requires
        missing@.len() > 0,
    ensures
        t@ == missing_message(missing@.to_set()),
{
    proof {
        use_type_invariant(missing);
        lemma_sorted_enumeration(missing@);
    }
    let ghost refs = missing@;
    let mut list = debug_quoted(missing.get(0).as_str());
    let mut i: usize = 1;
    assert(refs.subrange(0, 1).drop_last() =~= refs.subrange(0, 0));
    while i < missing.len()
        invariant
            1 <= i <= refs.len(),
            refs == missing@,
            list@ == debug_list(refs.subrange(0, i as int)),
        decreases refs.len() - i,
    {
        list.append(", ");
        let d = debug_quoted(missing.get(i).as_str());
        list.append(d.as_str());
        assert(refs.subrange(0, i + 1).drop_last() =~= refs.subrange(0, i as int));
        i = i + 1;
    }
    assert(refs.subrange(0, i as int) =~= refs);
    let mut t = String::from_str("comparative overlay references semantic objects absent from persisted graphs: {");
    t.append(list.as_str());
    t.append("}");
    t
}

fn first_node_index_with_ref(g: &GraphIr, r: &str) -> (k: Option<usize>)
    ensures
        match k {
            Some(k) => k < g@.nodes.len() && first_node_with_ref(g@.nodes, r@) == Some(g@.nodes[k as int]),
            None => first_node_with_ref(g@.nodes, r@) is None,
        },
{
    let ghost all = g@.nodes;
    let mut i: usize = 0;
    assert(all.subrange(0, all.len() as int) =~= all);
    while i < g.nodes.len()
        invariant
            i <= all.len(),
            all == g@.nodes,
            first_node_with_ref(all, r@) == first_node_with_ref(all.subrange(i as int, all.len() as int), r@),
        decreases all.len() - i,
    {
        let ghost rest = all.subrange(i as int, all.len() as int);
        if g.nodes[i].semantic_ref == r.to_owned() {
            assert(rest[0] == all[i as int]);
            return Some(i);
        }
        assert(rest.drop_first() =~= all.subrange(i + 1, all.len() as int));
        i = i + 1;
    }
    None
}

fn first_edge_index_with_ref(g: &GraphIr, r: &str) -> (k: Option<usize>)
    ensures
        match k {
            Some(k) => k < g@.edges.len() && first_edge_with_ref(g@.edges, r@) == Some(g@.edges[k as int]),
            None => first_edge_with_ref(g@.edges, r@) is None,
        },
{
    let ghost all = g@.edges;
    let mut i: usize = 0;
    assert(all.subrange(0, all.len() as int) =~= all);
    while i < g.edges.len()
        invariant
            i <= all.len(),
            all == g@.edges,
            first_edge_with_ref(all, r@) == first_edge_with_ref(all.subrange(i as int, all.len() as int), r@),
        decreases all.len() - i,
    {
        let ghost rest = all.subrange(i as int, all.len() as int);
        if g.edges[i].semantic_ref == r.to_owned() {
            assert(rest[0] == all[i as int]);
            return Some(i);
        }
        assert(rest.drop_first() =~= all.subrange(i + 1, all.len() as int));
        i = i + 1;
    }
    None
}

fn has_closure(g: &GraphIr, r: &str) -> (b: bool)
    ensures
        b == closure_backed(g@, r@),
{
    let node_backed = match first_node_index_with_ref(g, r) {
        Some(k) => g.nodes[k].source_refs.len() > 0 && g.nodes[k].provenance_refs.len() > 0,
        None => false,
    };
    if node_backed {
        return true;
    }
    match first_edge_index_with_ref(g, r) {
        Some(k) => g.edges[k].source_refs.len() > 0 && g.edges[k].provenance_refs.len() > 0,
        None => false,
    }
}

/// Refuses an overlay that names objects absent from both graphs, or that declares
/// an answer change which neither graph backs with source and provenance.
pub fn validate_overlay_against_graphs(
    overlay: &ComparativeExplanationOverlay,
    left: &AuFactReviewProjection,
    right: &AuFactReviewProjection,
) -> (r: Result<(), String>)
    ensures
        match r {
            Ok(()) => overlay_check(overlay@, left.graph_ir@, right.graph_ir@) is None,
            Err(e) => overlay_check(overlay@, left.graph_ir@, right.graph_ir@) == Some(e@),
        },
{
    let ghost l = left.graph_ir@;
    let ghost rg = right.graph_ir@;
    let mut available = RefSet::new();
    add_graph_refs(&left.graph_ir, &mut available);
    add_graph_refs(&right.graph_ir, &mut available);
    let referenced = overlay_ref_set(overlay);
    let missing = referenced.difference(&available);
    assert(available@.to_set() =~= graph_semantic_refs(l).union(graph_semantic_refs(rg)));
    assert(missing@.to_set() =~= missing_refs(overlay@, l, rg));
    if missing.len() > 0 {
        assert(missing@.to_set().contains(missing@[0]));
        return Err(missing_text(&missing));
    }
    assert(missing@.to_set() =~= Set::<Seq<char>>::empty());
    let answer_changing = &overlay.answer_changing_semantic_refs;
    let ghost all = answer_changing@;
    let mut i: usize = 0;
    assert(all.subrange(0, all.len() as int) =~= all);
    while i < answer_changing.len()
        invariant
            i <= all.len(),
            all == answer_changing@,
            first_unbacked(all, l, rg) == first_unbacked(all.subrange(i as int, all.len() as int), l, rg),
            l == left.graph_ir@,
            rg == right.graph_ir@,
            all == overlay@.answer_changing_semantic_refs,
            missing_refs(overlay@, l, rg) == Set::<Seq<char>>::empty(),
        decreases all.len() - i,
    {
        let ghost rest = all.subrange(i as int, all.len() as int);
        let x = answer_changing.get(i);
        if !has_closure(&left.graph_ir, x.as_str()) && !has_closure(&right.graph_ir, x.as_str()) {
            assert(rest[0] == all[i as int]);
            let mut e = String::from_str("answer-changing semantic object lacks source/provenance closure: ");
            e.append(x.as_str());
            return Err(e);
        }
        assert(rest.drop_first() =~= all.subrange(i + 1, all.len() as int));
        i = i + 1;
    }
    Ok(())
}

// ---------------------------------------------------------------------------
// Comparative specimens.
// ---------------------------------------------------------------------------

#[derive(Debug, Clone, PartialEq, Eq)]
pub struct PersistedComparativeWorkbenchSpecimen {
    pub left: AuFactReviewProjection,
    pub right: AuFactReviewProjection,
    pub read_model: ComparativeWorkbenchReadModel,
    pub source_backed_left: bool,
    pub source_backed_right: bool,
    pub provenance_backed_left: bool,
    pub provenance_backed_right: bool,
    pub candidate_only: bool,
    pub creates_semantic_authority: bool,
    pub creates_claim_truth: bool,
    pub predicts_outcome: bool,
}

#[derive(Debug, Clone, PartialEq, Eq)]
pub struct PersistedThreeWayComparativeSpecimen {
    pub w0: AuFactReviewProjection,
    pub w1: AuFactReviewProjection,
    pub w2: AuFactReviewProjection,
    pub sequence: ThreeWayComparativeSequence,
    pub candidate_only: bool,
    pub creates_semantic_authority: bool,
    pub creates_claim_truth: bool,
    pub predicts_outcome: bool,
}

/// Some node or edge of `g` carries a source reference.
pub open spec fn source_backed(g: GraphView) -> bool {
    (exists|i: int| 0 <= i < g.nodes.len() && (#[trigger] g.nodes[i]).source_refs.len() > 0)
        || (exists|i: int| 0 <= i < g.edges.len() && (#[trigger] g.edges[i]).source_refs.len() > 0)
}

/// Some node or edge of `g` carries a provenance reference.
pub open spec fn provenance_backed(g: GraphView) -> bool {
    (exists|i: int| 0 <= i < g.nodes.len() && (#[trigger] g.nodes[i]).provenance_refs.len() > 0)
        || (exists|i: int| 0 <= i < g.edges.len() && (#[trigger] g.edges[i]).provenance_refs.len() > 0)
}

fn has_source_refs(g: &GraphIr) -> (b: bool)
    ensures
        b == source_backed(g@),
{
    let mut i: usize = 0;
    while i < g.nodes.len()
        invariant
            i <= g.nodes@.len(),
            forall|k: int| 0 <= k < i ==> (#[trigger] g@.nodes[k]).source_refs.len() == 0,
        decreases g.nodes@.len() - i,
    {
        if g.nodes[i].source_refs.len() > 0 {
            assert(g@.nodes[i as int].source_refs.len() > 0);
            return true;
        }
        i = i + 1;
    }
    let mut j: usize = 0;
    while j < g.edges.len()
        invariant
            j <= g.edges@.len(),
            forall|k: int| 0 <= k < g@.nodes.len() ==> (#[trigger] g@.nodes[k]).source_refs.len() == 0,
            forall|k: int| 0 <= k < j ==> (#[trigger] g@.edges[k]).source_refs.len() == 0,
        decreases g.edges@.len() - j,
    {
        if g.edges[j].source_refs.len() > 0 {
            assert(g@.edges[j as int].source_refs.len() > 0);
            return true;
        }
        j = j + 1;
    }
    false
}

fn has_provenance_refs(g: &GraphIr) -> (b: bool)
    ensures
        b == provenance_backed(g@),
{
    let mut i: usize = 0;
    while i < g.nodes.len()
        invariant
            i <= g.nodes@.len(),
            forall|k: int| 0 <= k < i ==> (#[trigger] g@.nodes[k]).provenance_refs.len() == 0,
        decreases g.nodes@.len() - i,
    {
        if g.nodes[i].provenance_refs.len() > 0 {
            assert(g@.nodes[i as int].provenance_refs.len() > 0);
            return true;
        }
        i = i + 1;
    }
    let mut j: usize = 0;
    while j < g.edges.len()
        invariant
            j <= g.edges@.len(),
            forall|k: int| 0 <= k < g@.nodes.len() ==> (#[trigger] g@.nodes[k]).provenance_refs.len() == 0,
            forall|k: int| 0 <= k < j ==> (#[trigger] g@.edges[k]).provenance_refs.len() == 0,
        decreases g.edges@.len() - j,
    {
        if g.edges[j].provenance_refs.len() > 0 {
            assert(g@.edges[j as int].provenance_refs.len() > 0);
            return true;
        }
        j = j + 1;
    }
    false
}

/// An overlay that explains nothing and promotes nothing.
pub open spec fn empty_overlay() -> OverlayView {
    OverlayView {
        change_layer_by_semantic_ref: Map::empty(),
        explanation_by_semantic_ref: Map::empty(),
        answer_changing_semantic_refs: Seq::empty(),
        unresolved_semantic_refs: Seq::empty(),
        creates_semantic_authority: false,
        creates_claim_truth: false,
    }
}

/// The overlay a persisted value gives, or why it is refused: it does not read as
/// an overlay, or it claims authority or truth. No value gives the empty overlay.
pub open spec fn overlay_result(v: Option<Result<JsonValue, String>>) -> Result<OverlayView, Seq<char>> {
    match v {
        None => Ok(empty_overlay()),
        Some(Err(m)) => Err("invalid comparative overlay JSON: "@ + m@),
        Some(Ok(v)) => if !overlay_decodable(v) {
            Err(overlay_error_message(v))
        } else if promotes(overlay_of(v)) {
            Err(promotion_message())
        } else {
            Ok(overlay_of(v))
        },
    }
}

/// The refusal of graphs too large to number in one visual id space.
pub open spec fn id_space_message() -> Seq<char> {
    "comparative graphs exceed the visual id space"@
}

/// Selectors over two worlds, with nothing else selected.
pub open spec fn world_selectors(left_world: Seq<char>, right_world: Seq<char>) -> SelectorsView {
    SelectorsView {
        left_ref: left_world,
        right_ref: right_world,
        query_ref: None,
        consumer_ref: None,
        as_at_ref: None,
        scope_ref: None,
    }
}

pub open spec fn empty_graphs_message() -> Seq<char> {
    "persisted comparative specimen requires non-empty legal-follow graphs"@
}

/// What comparing two persisted projections under an optional persisted overlay gives.
pub open spec fn specimen_outcome(
    comparison_ref: Seq<char>,
    l: AuFactReviewProjection,
    r: AuFactReviewProjection,
    overlay: Option<Result<JsonValue, String>>,
    res: Result<PersistedComparativeWorkbenchSpecimen, String>,
) -> bool {
    let lg = l.graph_ir@;
    let rg = r.graph_ir@;
    if lg.nodes.len() == 0 || rg.nodes.len() == 0 {
        res matches Err(e) && e@ == empty_graphs_message()
    } else {
        match overlay_result(overlay) {
            Err(m) => res matches Err(e) && e@ == m,
            Ok(o) => match overlay_check(o, lg, rg) {
                Some(m) => res matches Err(e) && e@ == m,
                None => if !pair_fits_ids(lg, rg) {
                    res matches Err(e) && e@ == id_space_message()
                } else {
                    &&& res matches Ok(s)
                    &&& s.left == l
                    &&& s.right == r
                    &&& s.read_model@ == comparative_model(
                        comparison_ref,
                        lg,
                        rg,
                        world_selectors(l.read_model.world_ref@, r.read_model.world_ref@),
                        o,
                    )
                    &&& s.source_backed_left == source_backed(lg)
                    &&& s.source_backed_right == source_backed(rg)
                    &&& s.provenance_backed_left == provenance_backed(lg)
                    &&& s.provenance_backed_right == provenance_backed(rg)
                    &&& s.candidate_only
                    &&& !s.creates_semantic_authority
                    &&& !s.creates_claim_truth
                    &&& !s.predicts_outcome
                },
            },
        }
    }
}

/// The overlay read model of a persisted overlay, or the empty overlay.
fn read_overlay(overlay: Option<Result<JsonValue, String>>) -> (r: Result<ComparativeExplanationOverlay, String>)
    ensures
        match r {
            Ok(o) => overlay_result(overlay) == Ok::<OverlayView, Seq<char>>(o@),
            Err(e) => overlay_result(overlay) == Err::<OverlayView, Seq<char>>(e@),
        },
{
    match overlay {
        Some(Ok(v)) => {
            let persisted = decode_persisted_overlay(&v)?;
            persisted.into_read_model_overlay()
        },
        Some(Err(m)) => Err(invalid_overlay(m.as_str())),
        None => {
            let o = ComparativeExplanationOverlay::empty();
            assert(o@.answer_changing_semantic_refs =~= Seq::<Seq<char>>::empty());
            assert(o@.unresolved_semantic_refs =~= Seq::<Seq<char>>::empty());
            Ok(o)
        },
    }
}

fn fits_id_space(l: &GraphIr, r: &GraphIr) -> (b: bool)
    ensures
        b == pair_fits_ids(l@, r@),
{
    let total: u128 = l.nodes.len() as u128 + r.nodes.len() as u128 + l.edges.len() as u128 + r.edges.len() as u128;
    total < 0xffff_ffff_ffff_ffffu128
}

fn world_selector_pair(left_world: &String, right_world: &String) -> (s: ComparativeSelectors)
    ensures
        s@ == world_selectors(left_world@, right_world@),
{
    ComparativeSelectors {
        left_ref: left_world.clone(),
        right_ref: right_world.clone(),
        query_ref: None,
        consumer_ref: None,
        as_at_ref: None,
        scope_ref: None,
    }
}

/// Compares two persisted projections under an optional persisted overlay. Both
/// graphs must have nodes; the overlay must read, must not promote, and may only
/// name objects of the graphs, backing each answer change with source and provenance.
pub fn persisted_comparative_specimen(
    comparison_ref: &str,
    left: AuFactReviewProjection,
    right: AuFactReviewProjection,
    overlay: Option<Result<JsonValue, String>>,
) -> (res: Result<PersistedComparativeWorkbenchSpecimen, String>)
    requires
        edges_anchored(left.graph_ir@),
        edges_anchored(right.graph_ir@),
    ensures
        specimen_outcome(comparison_ref@, left, right, overlay, res),
{
    if left.graph_ir.nodes.len() == 0 || right.graph_ir.nodes.len() == 0 {
        return Err(String::from_str("persisted comparative specimen requires non-empty legal-follow graphs"));
    }
    let overlay = read_overlay(overlay)?;
    validate_overlay_against_graphs(&overlay, &left, &right)?;
    if !fits_id_space(&left.graph_ir, &right.graph_ir) {
        return Err(String::from_str("comparative graphs exceed the visual id space"));
    }
    let selectors = world_selector_pair(&left.read_model.world_ref, &right.read_model.world_ref);
    let read_model = comparative_workbench_read_model_with_overlay(
        comparison_ref,
        &left.graph_ir,
        &right.graph_ir,
        selectors,
        overlay,
    );
    let source_backed_left = has_source_refs(&left.graph_ir);
    let source_backed_right = has_source_refs(&right.graph_ir);
    let provenance_backed_left = has_provenance_refs(&left.graph_ir);
    let provenance_backed_right = has_provenance_refs(&right.graph_ir);
    Ok(
        PersistedComparativeWorkbenchSpecimen {
            left,
            right,
            read_model,
            source_backed_left,
            source_backed_right,
            provenance_backed_left,
            provenance_backed_right,
            candidate_only: true,
            creates_semantic_authority: false,
            creates_claim_truth: false,
            predicts_outcome: false,
        },
    )
}

/// Comparing two persisted documents once the left one projected as `l`: the
/// refusal of the right one if it does not project, else the comparison of the two
/// projections.
pub open spec fn pair_after_left(
    comparison_ref: Seq<char>,
    l: AuFactReviewProjection,
    right: Result<JsonValue, String>,
    overlay: Option<Result<JsonValue, String>>,
    max_nodes: usize,
    max_edges: usize,
    res: Result<PersistedComparativeWorkbenchSpecimen, String>,
) -> bool {
    exists|rr: Result<AuFactReviewProjection, String>|
        #[trigger] au_json_result(right, max_nodes, max_edges, rr) && match rr {
            Err(e) => res matches Err(x) && x@ == e@,
            Ok(r) => specimen_outcome(comparison_ref, l, r, overlay, res),
        }
}

/// Compares two persisted AU workbench documents, as parsed from their text: each
/// goes through the same projection as a single document, then the projections
/// are compared under the optional persisted overlay. A blank comparison reference
/// is refused first, then the first document that does not project.
pub fn project_persisted_comparative_workbench_json(
    comparison_ref: &str,
    left: Result<JsonValue, String>,
    right: Result<JsonValue, String>,
    overlay: Option<Result<JsonValue, String>>,
    max_nodes: usize,
    max_edges: usize,
) -> (res: Result<PersistedComparativeWorkbenchSpecimen, String>)
    ensures
        blank(comparison_ref@) ==> (res matches Err(e) && e@ == "persisted comparative workbench requires comparison_ref"@),
        !blank(comparison_ref@) ==> exists|lr: Result<AuFactReviewProjection, String>|
            #[trigger] au_json_result(left, max_nodes, max_edges, lr) && match lr {
                Err(e) => res matches Err(x) && x@ == e@,
                Ok(l) => pair_after_left(comparison_ref@, l, right, overlay, max_nodes, max_edges, res),
            },
{
    if is_blank(comparison_ref) {
        return Err(String::from_str("persisted comparative workbench requires comparison_ref"));
    }
    let ghost ld = left;
    let ghost rd = right;
    let ghost ov = overlay;
    let lr = project_persisted_au_workbench_json(left, max_nodes, max_edges);
    let l = match lr {
        Ok(l) => l,
        Err(e) => {
            return Err(e);
        },
    };
    let rr = project_persisted_au_workbench_json(right, max_nodes, max_edges);
    let r = match rr {
        Ok(r) => r,
        Err(e) => {
            let res = Err(e);
            assert(pair_after_left(comparison_ref@, l, rd, ov, max_nodes, max_edges, res));
            return res;
        },
    };
    proof {
        lemma_projection_edges_anchored(ld, max_nodes, max_edges, l);
        lemma_projection_edges_anchored(rd, max_nodes, max_edges, r);
    }
    let res = persisted_comparative_specimen(comparison_ref, l, r, overlay);
    assert(pair_after_left(comparison_ref@, l, rd, ov, max_nodes, max_edges, res));
    res
}

pub open spec fn empty_three_way_message() -> Seq<char> {
    "three-way comparative specimen requires three non-empty persisted legal-follow graphs"@
}

/// What comparing three persisted projections as two steps gives, each step under
/// its own optional persisted overlay.
pub open spec fn three_way_outcome(
    comparison_ref: Seq<char>,
    p0: AuFactReviewProjection,
    p1: AuFactReviewProjection,
    p2: AuFactReviewProjection,
    o01: Option<Result<JsonValue, String>>,
    o12: Option<Result<JsonValue, String>>,
    res: Result<PersistedThreeWayComparativeSpecimen, String>,
) -> bool {
    let (g0, g1, g2) = (p0.graph_ir@, p1.graph_ir@, p2.graph_ir@);
    if g0.nodes.len() == 0 || g1.nodes.len() == 0 || g2.nodes.len() == 0 {
        res matches Err(e) && e@ == empty_three_way_message()
    } else {
        match (overlay_result(o01), overlay_result(o12)) {
            (Err(m), _) => res matches Err(e) && e@ == m,
            (Ok(_), Err(m)) => res matches Err(e) && e@ == m,
            (Ok(a), Ok(b)) => match (overlay_check(a, g0, g1), overlay_check(b, g1, g2)) {
                (Some(m), _) => res matches Err(e) && e@ == m,
                (None, Some(m)) => res matches Err(e) && e@ == m,
                (None, None) => if !pair_fits_ids(g0, g1) || !pair_fits_ids(g1, g2) {
                    res matches Err(e) && e@ == id_space_message()
                } else {
                    &&& res matches Ok(s)
                    &&& s.w0 == p0
                    &&& s.w1 == p1
                    &&& s.w2 == p2
                    &&& s.sequence@ == three_way_sequence(
                        comparison_ref,
                        g0,
                        g1,
                        g2,
                        world_selectors(p0.read_model.world_ref@, p2.read_model.world_ref@),
                        a,
                        b,
                    )
                    &&& s.candidate_only
                    &&& !s.creates_semantic_authority
                    &&& !s.creates_claim_truth
                    &&& !s.predicts_outcome
                },
            },
        }
    }
}

/// Compares three persisted projections as two steps, W0 to W1 and W1 to W2, each
/// under its own optional persisted overlay, with W0's and W2's worlds selected.
pub fn persisted_three_way_specimen(
    comparison_ref: &str,
    w0: AuFactReviewProjection,
    w1: AuFactReviewProjection,
    w2: AuFactReviewProjection,
    w0_w1_overlay: Option<Result<JsonValue, String>>,
    w1_w2_overlay: Option<Result<JsonValue, String>>,
) -> (res: Result<PersistedThreeWayComparativeSpecimen, String>)
    requires
        edges_anchored(w0.graph_ir@),
        edges_anchored(w1.graph_ir@),
        edges_anchored(w2.graph_ir@),
    ensures
        three_way_outcome(comparison_ref@, w0, w1, w2, w0_w1_overlay, w1_w2_overlay, res),
{
    if w0.graph_ir.nodes.len() == 0 || w1.graph_ir.nodes.len() == 0 || w2.graph_ir.nodes.len() == 0 {
        return Err(String::from_str("three-way comparative specimen requires three non-empty persisted legal-follow graphs"));
    }
    let w0_w1 = read_overlay(w0_w1_overlay)?;
    let w1_w2 = read_overlay(w1_w2_overlay)?;
    validate_overlay_against_graphs(&w0_w1, &w0, &w1)?;
    validate_overlay_against_graphs(&w1_w2, &w1, &w2)?;
    if !fits_id_space(&w0.graph_ir, &w1.graph_ir) || !fits_id_space(&w1.graph_ir, &w2.graph_ir) {
        return Err(String::from_str("comparative graphs exceed the visual id space"));
    }
    let selectors = world_selector_pair(&w0.read_model.world_ref, &w2.read_model.world_ref);
    let sequence = three_way_comparative_sequence_with_overlays(
        comparison_ref,
        &w0.graph_ir,
        &w1.graph_ir,
        &w2.graph_ir,
        selectors,
        w0_w1,
        w1_w2,
    );
    Ok(
        PersistedThreeWayComparativeSpecimen {
            w0,
            w1,
            w2,
            sequence,
            candidate_only: true,
            creates_semantic_authority: false,
            creates_claim_truth: false,
            predicts_outcome: false,
        },
    )
}

/// Comparing three persisted documents once W0 projected as `p0`: the refusal of W1
/// or W2 if one does not project, else the comparison of the three projections.
pub open spec fn three_way_after_w0(
    comparison_ref: Seq<char>,
    p0: AuFactReviewProjection,
    w1: Result<JsonValue, String>,
    w2: Result<JsonValue, String>,
    o01: Option<Result<JsonValue, String>>,
    o12: Option<Result<JsonValue, String>>,
    max_nodes: usize,
    max_edges: usize,
    res: Result<PersistedThreeWayComparativeSpecimen, String>,
) -> bool {
    exists|r1: Result<AuFactReviewProjection, String>|
        #[trigger] au_json_result(w1, max_nodes, max_edges, r1) && match r1 {
            Err(e) => res matches Err(x) && x@ == e@,
            Ok(p1) => three_way_after_w1(comparison_ref, p0, p1, w2, o01, o12, max_nodes, max_edges, res),
        }
}

pub open spec fn three_way_after_w1(
    comparison_ref: Seq<char>,
    p0: AuFactReviewProjection,
    p1: AuFactReviewProjection,
    w2: Result<JsonValue, String>,
    o01: Option<Result<JsonValue, String>>,
    o12: Option<Result<JsonValue, String>>,
    max_nodes: usize,
    max_edges: usize,
    res: Result<PersistedThreeWayComparativeSpecimen, String>,
) -> bool {
    exists|r2: Result<AuFactReviewProjection, String>|
        #[trigger] au_json_result(w2, max_nodes, max_edges, r2) && match r2 {
            Err(e) => res matches Err(x) && x@ == e@,
            Ok(p2) => three_way_outcome(comparison_ref, p0, p1, p2, o01, o12, res),
        }
}

/// Compares three persisted AU workbench documents as two steps: each document goes
/// through the same projection as a single document; the first that does not
/// project is refused.
pub fn project_persisted_three_way_comparative_json(
    comparison_ref: &str,
    w0: Result<JsonValue, String>,
    w1: Result<JsonValue, String>,
    w2: Result<JsonValue, String>,
    w0_w1_overlay: Option<Result<JsonValue, String>>,
    w1_w2_overlay: Option<Result<JsonValue, String>>,
    max_nodes: usize,
    max_edges: usize,
) -> (res: Result<PersistedThreeWayComparativeSpecimen, String>)
    ensures
        exists|r0: Result<AuFactReviewProjection, String>|
            #[trigger] au_json_result(w0, max_nodes, max_edges, r0) && match r0 {
                Err(e) => res matches Err(x) && x@ == e@,
                Ok(p0) => three_way_after_w0(
                    comparison_ref@,
                    p0,
                    w1,
                    w2,
                    w0_w1_overlay,
                    w1_w2_overlay,
                    max_nodes,
                    max_edges,
                    res,
                ),
            },
{
    let ghost d1 = w1;
    let ghost d2 = w2;
    let ghost o01 = w0_w1_overlay;
    let ghost o12 = w1_w2_overlay;
    let r0 = project_persisted_au_workbench_json(w0, max_nodes, max_edges);
    let p0 = match r0 {
        Ok(p) => p,
        Err(e) => {
            return Err(e);
        },
    };
    let r1 = project_persisted_au_workbench_json(w1, max_nodes, max_edges);
    let p1 = match r1 {
        Ok(p) => p,
        Err(e) => {
            let res = Err(e);
            assert(three_way_after_w0(comparison_ref@, p0, d1, d2, o01, o12, max_nodes, max_edges, res));
            return res;
        },
    };
    let r2 = project_persisted_au_workbench_json(w2, max_nodes, max_edges);
    let p2 = match r2 {
        Ok(p) => p,
        Err(e) => {
            let res = Err(e);
            assert(three_way_after_w1(comparison_ref@, p0, p1, d2, o01, o12, max_nodes, max_edges, res));
            assert(three_way_after_w0(comparison_ref@, p0, d1, d2, o01, o12, max_nodes, max_edges, res));
            return res;
        },
    };
    proof {
        lemma_projection_edges_anchored(w0, max_nodes, max_edges, p0);
        lemma_projection_edges_anchored(d1, max_nodes, max_edges, p1);
        lemma_projection_edges_anchored(d2, max_nodes, max_edges, p2);
    }
    let res = persisted_three_way_specimen(comparison_ref, p0, p1, p2, w0_w1_overlay, w1_w2_overlay);
    assert(three_way_after_w1(comparison_ref@, p0, p1, d2, o01, o12, max_nodes, max_edges, res));
    assert(three_way_after_w0(comparison_ref@, p0, d1, d2, o01, o12, max_nodes, max_edges, res));
    res
}

proof fn lemma_first_unbacked_none(refs: Seq<Seq<char>>, l: GraphView, r: GraphView)
    requires
        first_unbacked(refs, l, r) is None,
    ensures
        forall|i: int| 0 <= i < refs.len() ==> closure_backed(l, #[trigger] refs[i]) || closure_backed(r, refs[i]),
    decreases refs.len(),
{
    if refs.len() > 0 {
        lemma_first_unbacked_none(refs.drop_first(), l, r);
        assert forall|i: int| 0 <= i < refs.len() implies closure_backed(l, #[trigger] refs[i]) || closure_backed(r, refs[i]) by {
            if i > 0 {
                assert(refs[i] == refs.drop_first()[i - 1]);
            }
        }
    }
}

/// An accepted persisted comparison promotes nothing, and its overlay only speaks of
/// objects the persisted graphs hold: every reference it names is drawn in one of
/// the graphs, and every answer change it declares is backed by source and
/// provenance in one of them.
pub proof fn lemma_accepted_overlay_is_grounded(
    comparison_ref: Seq<char>,
    l: AuFactReviewProjection,
    r: AuFactReviewProjection,
    overlay: Option<Result<JsonValue, String>>,
    s: PersistedComparativeWorkbenchSpecimen,
)
    requires
        specimen_outcome(comparison_ref, l, r, overlay, Ok(s)),
    ensures
        !promotes(s.read_model@.explanation_overlay),
        !s.read_model@.creates_semantic_authority,
        !s.read_model@.creates_claim_truth,
        !s.read_model@.predicts_outcome,
        overlay_refs(s.read_model@.explanation_overlay).subset_of(
            graph_semantic_refs(l.graph_ir@).union(graph_semantic_refs(r.graph_ir@)),
        ),
        forall|i: int|
            0 <= i < s.read_model@.answer_changing_semantic_refs.len() ==> closure_backed(
                l.graph_ir@,
                #[trigger] s.read_model@.answer_changing_semantic_refs[i],
            ) || closure_backed(r.graph_ir@, s.read_model@.answer_changing_semantic_refs[i]),
{
    let o = overlay_result(overlay)->Ok_0;
    let (lg, rg) = (l.graph_ir@, r.graph_ir@);
    assert(overlay_check(o, lg, rg) is None);
    assert(missing_refs(o, lg, rg) == Set::<Seq<char>>::empty());
    assert forall|x: Seq<char>| overlay_refs(o).contains(x) implies graph_semantic_refs(lg).union(graph_semantic_refs(rg)).contains(x) by {
        assert(!missing_refs(o, lg, rg).contains(x));
    }
    lemma_first_unbacked_none(o.answer_changing_semantic_refs, lg, rg);
}


proof fn lemma_first_node_with_ref(nodes: Seq<NodeView>, r: Seq<char>)
    ensures
        first_node_with_ref(nodes, r) matches Some(n) ==> exists|i: int|
            0 <= i < nodes.len() && #[trigger] nodes[i] == n && n.semantic_ref == r && forall|k: int|
                0 <= k < i ==> (#[trigger] nodes[k]).semantic_ref != r,
    decreases nodes.len(),
{
    if nodes.len() > 0 && nodes[0].semantic_ref != r {
        let p = nodes.drop_first();
        lemma_first_node_with_ref(p, r);
        if first_node_with_ref(p, r) is Some {
            let n = first_node_with_ref(p, r)->Some_0;
            let i = choose|i: int|
                0 <= i < p.len() && #[trigger] p[i] == n && n.semantic_ref == r && forall|k: int|
                    0 <= k < i ==> (#[trigger] p[k]).semantic_ref != r;
            assert(nodes[i + 1] == p[i]);
            assert forall|k: int| 0 <= k < i + 1 implies (#[trigger] nodes[k]).semantic_ref != r by {
                if k > 0 {
                    assert(nodes[k] == p[k - 1]);
                }
            }
        }
    } else if nodes.len() > 0 {
        assert(nodes[0] == nodes[0]);
    }
}

proof fn lemma_first_edge_with_ref(edges: Seq<EdgeView>, r: Seq<char>)
    ensures
        first_edge_with_ref(edges, r) matches Some(e) ==> exists|i: int|
            0 <= i < edges.len() && #[trigger] edges[i] == e && e.semantic_ref == r && forall|k: int|
                0 <= k < i ==> (#[trigger] edges[k]).semantic_ref != r,
    decreases edges.len(),
{
    if edges.len() > 0 && edges[0].semantic_ref != r {
        let p = edges.drop_first();
        lemma_first_edge_with_ref(p, r);
        if first_edge_with_ref(p, r) is Some {
            let e = first_edge_with_ref(p, r)->Some_0;
            let i = choose|i: int|
                0 <= i < p.len() && #[trigger] p[i] == e && e.semantic_ref == r && forall|k: int|
                    0 <= k < i ==> (#[trigger] p[k]).semantic_ref != r;
            assert(edges[i + 1] == p[i]);
            assert forall|k: int| 0 <= k < i + 1 implies (#[trigger] edges[k]).semantic_ref != r by {
                if k > 0 {
                    assert(edges[k] == p[k - 1]);
                }
            }
        }
    } else if edges.len() > 0 {
        assert(edges[0] == edges[0]);
    }
}

/// In `g`, the first node carrying `r`, or the first edge carrying it, has both
/// source references and provenance references.
proof fn lemma_closure_backed_direct(g: GraphView, r: Seq<char>)
    requires
        closure_backed(g, r),
    ensures
        (exists|i: int|
            0 <= i < g.nodes.len() && (#[trigger] g.nodes[i]).semantic_ref == r && (forall|k: int|
                0 <= k < i ==> (#[trigger] g.nodes[k]).semantic_ref != r) && g.nodes[i].source_refs.len() > 0
                && g.nodes[i].provenance_refs.len() > 0) || (exists|i: int|
            0 <= i < g.edges.len() && (#[trigger] g.edges[i]).semantic_ref == r && (forall|k: int|
                0 <= k < i ==> (#[trigger] g.edges[k]).semantic_ref != r) && g.edges[i].source_refs.len() > 0
                && g.edges[i].provenance_refs.len() > 0),
{
    lemma_first_node_with_ref(g.nodes, r);
    lemma_first_edge_with_ref(g.edges, r);
}

/// An accepted persisted comparison declares an answer change only where one of
/// the two graphs backs it: there the first node carrying the reference, or the
/// first edge carrying it, has both source references and provenance references.
pub proof fn lemma_accepted_answer_changes_are_closed(
    comparison_ref: Seq<char>,
    l: AuFactReviewProjection,
    r: AuFactReviewProjection,
    overlay: Option<Result<JsonValue, String>>,
    s: PersistedComparativeWorkbenchSpecimen,
)
    requires
        specimen_outcome(comparison_ref, l, r, overlay, Ok(s)),
    ensures
        forall|a: int|
            #![trigger s.read_model@.answer_changing_semantic_refs[a]]
            0 <= a < s.read_model@.answer_changing_semantic_refs.len() ==> (                (exists|i: int|
                    0 <= i < l.graph_ir@.nodes.len() && (#[trigger] l.graph_ir@.nodes[i]).semantic_ref == s.read_model@.answer_changing_semantic_refs[a] && (forall|k: int|
                        0 <= k < i ==> (#[trigger] l.graph_ir@.nodes[k]).semantic_ref != s.read_model@.answer_changing_semantic_refs[a]) && l.graph_ir@.nodes[i].source_refs.len() > 0
                        && l.graph_ir@.nodes[i].provenance_refs.len() > 0) || (exists|i: int|
                    0 <= i < l.graph_ir@.edges.len() && (#[trigger] l.graph_ir@.edges[i]).semantic_ref == s.read_model@.answer_changing_semantic_refs[a] && (forall|k: int|
                        0 <= k < i ==> (#[trigger] l.graph_ir@.edges[k]).semantic_ref != s.read_model@.answer_changing_semantic_refs[a]) && l.graph_ir@.edges[i].source_refs.len() > 0
                        && l.graph_ir@.edges[i].provenance_refs.len() > 0)) || (                (exists|i: int|
                    0 <= i < r.graph_ir@.nodes.len() && (#[trigger] r.graph_ir@.nodes[i]).semantic_ref == s.read_model@.answer_changing_semantic_refs[a] && (forall|k: int|
                        0 <= k < i ==> (#[trigger] r.graph_ir@.nodes[k]).semantic_ref != s.read_model@.answer_changing_semantic_refs[a]) && r.graph_ir@.nodes[i].source_refs.len() > 0
                        && r.graph_ir@.nodes[i].provenance_refs.len() > 0) || (exists|i: int|
                    0 <= i < r.graph_ir@.edges.len() && (#[trigger] r.graph_ir@.edges[i]).semantic_ref == s.read_model@.answer_changing_semantic_refs[a] && (forall|k: int|
                        0 <= k < i ==> (#[trigger] r.graph_ir@.edges[k]).semantic_ref != s.read_model@.answer_changing_semantic_refs[a]) && r.graph_ir@.edges[i].source_refs.len() > 0
                        && r.graph_ir@.edges[i].provenance_refs.len() > 0)),
{
    lemma_accepted_overlay_is_grounded(comparison_ref, l, r, overlay, s);
    let refs = s.read_model@.answer_changing_semantic_refs;
    assert forall|a: int| #![trigger refs[a]] 0 <= a < refs.len() implies (        (exists|i: int|
            0 <= i < l.graph_ir@.nodes.len() && (#[trigger] l.graph_ir@.nodes[i]).semantic_ref == refs[a] && (forall|k: int|
                0 <= k < i ==> (#[trigger] l.graph_ir@.nodes[k]).semantic_ref != refs[a]) && l.graph_ir@.nodes[i].source_refs.len() > 0
                && l.graph_ir@.nodes[i].provenance_refs.len() > 0) || (exists|i: int|
            0 <= i < l.graph_ir@.edges.len() && (#[trigger] l.graph_ir@.edges[i]).semantic_ref == refs[a] && (forall|k: int|
                0 <= k < i ==> (#[trigger] l.graph_ir@.edges[k]).semantic_ref != refs[a]) && l.graph_ir@.edges[i].source_refs.len() > 0
                && l.graph_ir@.edges[i].provenance_refs.len() > 0)) || (        (exists|i: int|
            0 <= i < r.graph_ir@.nodes.len() && (#[trigger] r.graph_ir@.nodes[i]).semantic_ref == refs[a] && (forall|k: int|
                0 <= k < i ==> (#[trigger] r.graph_ir@.nodes[k]).semantic_ref != refs[a]) && r.graph_ir@.nodes[i].source_refs.len() > 0
                && r.graph_ir@.nodes[i].provenance_refs.len() > 0) || (exists|i: int|
            0 <= i < r.graph_ir@.edges.len() && (#[trigger] r.graph_ir@.edges[i]).semantic_ref == refs[a] && (forall|k: int|
                0 <= k < i ==> (#[trigger] r.graph_ir@.edges[k]).semantic_ref != refs[a]) && r.graph_ir@.edges[i].source_refs.len() > 0
                && r.graph_ir@.edges[i].provenance_refs.len() > 0)) by {
        let x = refs[a];
        if closure_backed(l.graph_ir@, x) {
            lemma_closure_backed_direct(l.graph_ir@, x);
        } else {
            lemma_closure_backed_direct(r.graph_ir@, x);
        }
    }
}

} // verus!
