//! Facts as they travel: one JSON object to a line.

use vstd::prelude::*;

use crate::json::{
    self, copy_fields, field, list_fields, no_fields, read_name, words, Json, JsonV,
};
use crate::said;
use crate::schema::{self, Edge, EdgeKind, EdgeV, Evidence, EvidenceV, Fact, FactV, Id, Node, NodeKind, NodeV, Source};
use crate::table;
use crate::text::{self, Text};

verus! {

// --- writing -----------------------------------------------------------------

pub open spec fn pair_json(pair: (u32, u32)) -> JsonV {
    JsonV::List(seq![JsonV::Whole(pair.0 as u64), JsonV::Whole(pair.1 as u64)])
}

fn write_pair(pair: [u32; 2]) -> (j: Json)
    ensures
        j.deep_view() == pair_json((pair[0], pair[1])),
{
    let mut items: Vec<Json> = Vec::new();
    items.push(Json::Whole(pair[0] as u64));
    items.push(Json::Whole(pair[1] as u64));
    assert(items.deep_view() =~= seq![JsonV::Whole(pair[0] as u64), JsonV::Whole(pair[1] as u64)]);
    Json::list(items)
}

/// A piece of evidence: a column only where there is one, and a source only
/// where it is not the usual one.
pub open spec fn evidence_fields(e: EvidenceV) -> Seq<(Text, JsonV)> {
    let start = seq![("file"@, JsonV::Str(e.file))].push(("line"@, pair_json(e.line)));
    let spanned = match e.col {
        Some(col) => start.push(("col"@, pair_json(col))),
        None => start,
    };
    let sourced = spanned.push(("extractor"@, JsonV::Str(e.extractor)));
    if e.source == Source::Runtime {
        sourced.push(("source"@, JsonV::Str("runtime"@)))
    } else {
        sourced
    }
}

fn write_evidence(e: &Evidence) -> (j: Json)
    ensures
        j.deep_view() == JsonV::Object(evidence_fields(e.deep_view())),
{
    let mut fields = no_fields();
    crate::json::add(&mut fields, "file", Json::str(e.file.as_str()));
    crate::json::add(&mut fields, "line", write_pair(e.line));
    if let Some(col) = e.col {
        crate::json::add(&mut fields, "col", write_pair(col));
    }
    crate::json::add(&mut fields, "extractor", Json::str(e.extractor.as_str()));
    if e.source == Source::Runtime {
        crate::json::add(&mut fields, "source", Json::str("runtime"));
    }
    Json::object(fields)
}

/// The first `n` pieces of evidence.
pub open spec fn evidence_list(ev: Seq<EvidenceV>, n: nat) -> Seq<JsonV>
    decreases n,
{
    if n == 0 {
        seq![]
    } else {
        evidence_list(ev, (n - 1) as nat).push(JsonV::Object(evidence_fields(ev[n - 1])))
    }
}

/// The fields of an edge, after others.
pub open spec fn edge_fields(start: Seq<(Text, JsonV)>, edge: EdgeV) -> Seq<(Text, JsonV)> {
    let ends = start.push(("kind"@, JsonV::Str(edge.kind.spelled()))).push(
        ("from"@, JsonV::Str(edge.from)),
    ).push(("to"@, JsonV::Str(edge.to)));
    let seen = if edge.ev.len() == 0 {
        ends
    } else {
        ends.push(("ev"@, JsonV::List(evidence_list(edge.ev, edge.ev.len()))))
    };
    if edge.attrs.len() == 0 {
        seen
    } else {
        seen.push(("attrs"@, JsonV::Object(edge.attrs)))
    }
}

pub(crate) fn add_edge(fields: &mut Vec<(String, Json)>, edge: &Edge)
    ensures
        final(fields).deep_view() == edge_fields(old(fields).deep_view(), edge.deep_view()),
{
    crate::json::add(fields, "kind", Json::str(edge.kind.name()));
    crate::json::add(fields, "from", Json::str(edge.from.0.as_str()));
    crate::json::add(fields, "to", Json::str(edge.to.0.as_str()));
    if edge.ev.len() > 0 {
        let mut items: Vec<Json> = Vec::new();
        let mut i: usize = 0;
        assert(items.deep_view() =~= seq![]);
        while i < edge.ev.len()
            invariant
                i <= edge.ev.len(),
                items.deep_view() == evidence_list(edge.ev.deep_view(), i as nat),
            decreases edge.ev.len() - i,
        {
            text::push(&mut items, write_evidence(&edge.ev[i]));
            i += 1;
        }
        crate::json::add(fields, "ev", Json::list(items));
    }
    if edge.attrs.len() > 0 {
        crate::json::add(fields, "attrs", Json::object(copy_fields(&edge.attrs)));
    }
}

/// A fact as an object. What is empty is left out.
pub open spec fn fact_fields(fact: FactV) -> Seq<(Text, JsonV)> {
    match fact {
        FactV::Header { schema, extractor, root } => seq![("t"@, JsonV::Str("header"@))].push(
            ("schema"@, JsonV::Str(schema)),
        ).push(("extractor"@, JsonV::Str(extractor))).push(("root"@, JsonV::Str(root))),
        FactV::Node(node) => {
            let start = seq![("t"@, JsonV::Str("node"@))].push(("id"@, JsonV::Str(node.id))).push(
                ("kind"@, JsonV::Str(node.kind.spelled())),
            );
            if node.attrs.len() == 0 {
                start
            } else {
                start.push(("attrs"@, JsonV::Object(node.attrs)))
            }
        },
        FactV::Edge(edge) => edge_fields(seq![("t"@, JsonV::Str("edge"@))], edge),
    }
}

/// Turns a fact into the object that stands on its line.
pub fn write_fact(fact: &Fact) -> (j: Json)
    ensures
        j.deep_view() == JsonV::Object(fact_fields(fact.deep_view())),
{
    let mut fields = no_fields();
    match fact {
        Fact::Header { schema, extractor, root } => {
            crate::json::add(&mut fields, "t", Json::str("header"));
            crate::json::add(&mut fields, "schema", Json::str(schema.as_str()));
            crate::json::add(&mut fields, "extractor", Json::str(extractor.as_str()));
            crate::json::add(&mut fields, "root", Json::str(root.as_str()));
        },
        Fact::Node(node) => {
            crate::json::add(&mut fields, "t", Json::str("node"));
            crate::json::add(&mut fields, "id", Json::str(node.id.0.as_str()));
            crate::json::add(&mut fields, "kind", Json::str(node.kind.name()));
            if node.attrs.len() > 0 {
                crate::json::add(&mut fields, "attrs", Json::object(copy_fields(&node.attrs)));
            }
        },
        Fact::Edge(edge) => {
            crate::json::add(&mut fields, "t", Json::str("edge"));
            add_edge(&mut fields, edge);
        },
    }
    Json::object(fields)
}

// --- reading -----------------------------------------------------------------

pub open spec fn pair_read(j: JsonV) -> Option<(u32, u32)> {
    match j {
        JsonV::List(items) => if items.len() == 2 {
            match (items[0], items[1]) {
                (JsonV::Whole(a), JsonV::Whole(b)) => if a <= u32::MAX && b <= u32::MAX {
                    Some((a as u32, b as u32))
                } else {
                    None
                },
                _ => None,
            }
        } else {
            None
        },
        _ => None,
    }
}

fn read_pair(j: &Json) -> (pair: Option<[u32; 2]>)
    ensures
        match pair {
            Some(p) => pair_read(j.deep_view()) == Some((p[0], p[1])),
            None => pair_read(j.deep_view()) is None,
        },
{
    if let Some(items) = j.as_list() {
        if items.len() == 2 {
            assert(items.deep_view()[0] == items@[0].deep_view());
            assert(items.deep_view()[1] == items@[1].deep_view());
            if let Json::Whole(a) = &items[0] {
                if let Json::Whole(b) = &items[1] {
                    if *a <= u32::MAX as u64 && *b <= u32::MAX as u64 {
                        return Some([*a as u32, *b as u32]);
                    }
                }
            }
        }
    }
    None
}

pub open spec fn source_read(j: Option<JsonV>) -> Option<Source> {
    match j {
        None => Some(Source::Static),
        Some(_) => match json::name_of(j) {
            Some(s) => if s == "static"@ {
                Some(Source::Static)
            } else if s == "runtime"@ {
                Some(Source::Runtime)
            } else {
                None
            },
            None => None,
        },
    }
}

/// Evidence as a list has it. The columns have no place there.
pub open spec fn evidence_names() -> Seq<Text> {
    seq!["file"@, "line"@, "extractor"@, "source"@]
}

/// What evidence knows.
pub open spec fn evidence_known() -> Seq<Text> {
    seq!["file"@, "line"@, "col"@, "extractor"@, "source"@]
}

/// The evidence that the fields of an object stand for.
pub open spec fn evidence_of(fields: Seq<(Text, JsonV)>) -> Option<EvidenceV> {
    let col = match table::lookup(fields, "col"@) {
        None => Some(None),
        Some(JsonV::Null) => Some(None),
        Some(c) => match pair_read(c) {
            Some(p) => Some(Some(p)),
            None => None,
        },
    };
    match (
        json::str_of(table::lookup(fields, "file"@)),
        table::lookup(fields, "line"@),
        col,
        json::str_of(table::lookup(fields, "extractor"@)),
        source_read(table::lookup(fields, "source"@)),
    ) {
        (Some(file), Some(line), Some(col), Some(extractor), Some(source)) => match pair_read(
            line,
        ) {
            Some(line) => Some(EvidenceV { file, line, col, extractor, source }),
            None => None,
        },
        _ => None,
    }
}

pub open spec fn evidence_read(j: JsonV) -> Option<EvidenceV> {
    match json::record_of(j, evidence_known(), evidence_names(), 3) {
        Some(fields) => evidence_of(fields),
        None => None,
    }
}

fn read_evidence_of(fields: &Vec<(String, Json)>) -> (e: Option<Evidence>)
    ensures
        e.deep_view() == evidence_of(fields.deep_view()),
{
    let file = match field(fields, "file") {
        Some(Json::Str(s)) => s.clone(),
        _ => return None,
    };
    let line = match field(fields, "line") {
        Some(l) => match read_pair(l) {
            Some(p) => p,
            None => return None,
        },
        None => return None,
    };
    let col = match field(fields, "col") {
        None => None,
        Some(Json::Null) => None,
        Some(c) => match read_pair(c) {
            Some(p) => Some(p),
            None => return None,
        },
    };
    let extractor = match field(fields, "extractor") {
        Some(Json::Str(s)) => s.clone(),
        _ => return None,
    };
    let said = field(fields, "source");
    let source = match said {
        None => Source::Static,
        Some(_) => match read_name(said) {
            Some(s) => if text::same(s.as_str(), "static") {
                Source::Static
            } else if text::same(s.as_str(), "runtime") {
                Source::Runtime
            } else {
                return None;
            },
            None => return None,
        },
    };
    Some(Evidence { file, line, col, extractor, source })
}

fn read_evidence(j: &Json) -> (e: Option<Evidence>)
    ensures
        e.deep_view() == evidence_read(j.deep_view()),
{
    match j.as_object() {
        Some(fields) => {
            let known = words(&["file", "line", "col", "extractor", "source"]);
            assert(known.deep_view() =~= evidence_known());
            if said::are_once(fields, &known) {
                return read_evidence_of(fields);
            }
            return None;
        },
        None => {},
    }
    let items = match j.as_list() {
        Some(items) => items,
        None => return None,
    };
    let names = words(&["file", "line", "extractor", "source"]);
    assert(names.deep_view() =~= evidence_names());
    match list_fields(items, &names, 3) {
        Some(fields) => read_evidence_of(&fields),
        None => None,
    }
}

/// The first `n` items, when every one of them is evidence.
pub open spec fn evidence_items(items: Seq<JsonV>, n: nat) -> Option<Seq<EvidenceV>>
    decreases n,
{
    if n == 0 {
        Some(seq![])
    } else {
        match (evidence_items(items, (n - 1) as nat), evidence_read(items[n - 1])) {
            (Some(before), Some(e)) => Some(before.push(e)),
            _ => None,
        }
    }
}

/// Where one item is not evidence, the list is refused.
proof fn lemma_evidence_refused(items: Seq<JsonV>, at: nat, n: nat)
    requires
        evidence_items(items, at) is None,
        at <= n,
    ensures
        evidence_items(items, n) is None,
    decreases n,
{
    if at < n {
        lemma_evidence_refused(items, at, (n - 1) as nat);
    }
}

pub open spec fn evidence_all(j: Option<JsonV>) -> Option<Seq<EvidenceV>> {
    match j {
        None => Some(seq![]),
        Some(JsonV::List(items)) => evidence_items(items, items.len()),
        _ => None,
    }
}

fn read_all_evidence(j: Option<&Json>) -> (ev: Option<Vec<Evidence>>)
    ensures
        ev.deep_view() == evidence_all(j.deep_view()),
{
    let mut out: Vec<Evidence> = Vec::new();
    assert(out.deep_view() =~= seq![]);
    let value = match j {
        None => return Some(out),
        Some(value) => value,
    };
    let items = match value.as_list() {
        Some(items) => items,
        None => return None,
    };
    let ghost all = items.deep_view();
    let mut i: usize = 0;
    while i < items.len()
        invariant
            i <= items.len(),
            all == items.deep_view(),
            j.deep_view() == Some(JsonV::List(all)),
            evidence_items(all, i as nat) == Some(out.deep_view()),
        decreases items.len() - i,
    {
        match read_evidence(&items[i]) {
            Some(e) => text::push(&mut out, e),
            None => {
                proof {
                    assert(evidence_items(all, (i + 1) as nat) is None);
                    lemma_evidence_refused(all, (i + 1) as nat, all.len());
                }
                return None;
            },
        }
        i += 1;
    }
    Some(out)
}

pub open spec fn attrs_all(j: Option<JsonV>) -> Option<Seq<(Text, JsonV)>> {
    match j {
        None => Some(seq![]),
        Some(JsonV::Object(fields)) => Some(said::settled_fields(fields, fields.len())),
        _ => None,
    }
}

fn read_attrs(j: Option<&Json>) -> (attrs: Option<Vec<(String, Json)>>)
    ensures
        attrs.deep_view() == attrs_all(j.deep_view()),
{
    match j {
        None => Some(no_fields()),
        Some(value) => match value.as_object() {
            Some(fields) => Some(said::settle_fields(fields)),
            None => None,
        },
    }
}

/// The edge that the fields of an object stand for.
pub open spec fn edge_read(fields: Seq<(Text, JsonV)>) -> Option<EdgeV> {
    match (
        json::name_of(table::lookup(fields, "kind"@)),
        json::str_of(table::lookup(fields, "from"@)),
        json::str_of(table::lookup(fields, "to"@)),
        evidence_all(table::lookup(fields, "ev"@)),
        attrs_all(table::lookup(fields, "attrs"@)),
    ) {
        (Some(kind), Some(from), Some(to), Some(ev), Some(attrs)) => match schema::edge_kind_of(
            kind,
        ) {
            Some(kind) => Some(EdgeV { kind, from, to, ev, attrs }),
            None => None,
        },
        _ => None,
    }
}

/// The fact that the fields of an object stand for. Fields that are not those
/// of one of the three, or lack what its kind needs, stand for none.
pub open spec fn fact_of(fields: Seq<(Text, JsonV)>) -> Option<FactV> {
    match json::str_of(table::lookup(fields, "t"@)) {
        Some(t) => if t == "header"@ {
            match (
                json::str_of(table::lookup(fields, "schema"@)),
                json::str_of(table::lookup(fields, "extractor"@)),
                json::str_of(table::lookup(fields, "root"@)),
            ) {
                (Some(schema), Some(extractor), Some(root)) => Some(
                    FactV::Header { schema, extractor, root },
                ),
                _ => None,
            }
        } else if t == "node"@ {
            match (
                json::str_of(table::lookup(fields, "id"@)),
                json::name_of(table::lookup(fields, "kind"@)),
                attrs_all(table::lookup(fields, "attrs"@)),
            ) {
                (Some(id), Some(kind), Some(attrs)) => match schema::node_kind_of(kind) {
                    Some(kind) => Some(FactV::Node(NodeV { id, kind, attrs })),
                    None => None,
                },
                _ => None,
            }
        } else if t == "edge"@ {
            match edge_read(fields) {
                Some(edge) => Some(FactV::Edge(edge)),
                None => None,
            }
        } else {
            None
        },
        None => None,
    }
}

/// A fact as a list has it, its kind first.
pub open spec fn fact_names(t: Text) -> Seq<Text> {
    if t == "header"@ {
        seq!["t"@, "schema"@, "extractor"@, "root"@]
    } else if t == "node"@ {
        seq!["t"@, "id"@, "kind"@, "attrs"@]
    } else {
        seq!["t"@, "kind"@, "from"@, "to"@, "ev"@, "attrs"@]
    }
}

/// How many of them a list cannot leave out.
pub open spec fn fact_least(t: Text) -> nat {
    if t == "node"@ {
        3
    } else {
        4
    }
}

/// The fact a value stands for: an object by its fields, where none that the fact
/// knows is given twice, or a list by its items.
pub open spec fn fact_read(j: JsonV) -> Option<FactV> {
    match j {
        JsonV::Object(fields) => match json::str_of(table::lookup(fields, "t"@)) {
            Some(t) => if said::all_once(fields, fact_names(t)) {
                fact_of(fields)
            } else {
                None
            },
            None => None,
        },
        JsonV::List(items) => if items.len() == 0 {
            None
        } else {
            match items[0] {
                JsonV::Str(t) => match json::listed_fields(items, fact_names(t), fact_least(t)) {
                    Some(fields) => fact_of(fields),
                    None => None,
                },
                _ => None,
            }
        },
        _ => None,
    }
}

fn str_at(fields: &Vec<(String, Json)>, key: &str) -> (s: Option<String>)
    ensures
        s.deep_view() == json::str_of(table::lookup(fields.deep_view(), key@)),
{
    match field(fields, key) {
        Some(Json::Str(s)) => Some(s.clone()),
        _ => None,
    }
}

fn read_fact_of(fields: &Vec<(String, Json)>) -> (fact: Option<Fact>)
    ensures
        fact.deep_view() == fact_of(fields.deep_view()),
{
    let t = match str_at(fields, "t") {
        Some(t) => t,
        None => return None,
    };
    if text::same(t.as_str(), "header") {
        match (str_at(fields, "schema"), str_at(fields, "extractor"), str_at(fields, "root")) {
            (Some(schema), Some(extractor), Some(root)) => Some(
                Fact::Header { schema, extractor, root },
            ),
            _ => None,
        }
    } else if text::same(t.as_str(), "node") {
        match (
            str_at(fields, "id"),
            read_name(field(fields, "kind")),
            read_attrs(field(fields, "attrs")),
        ) {
            (Some(id), Some(kind), Some(attrs)) => match NodeKind::named(kind.as_str()) {
                Some(kind) => Some(Fact::Node(Node { id: Id(id), kind, attrs })),
                None => None,
            },
            _ => None,
        }
    } else if text::same(t.as_str(), "edge") {
        match (
            read_name(field(fields, "kind")),
            str_at(fields, "from"),
            str_at(fields, "to"),
            read_all_evidence(field(fields, "ev")),
            read_attrs(field(fields, "attrs")),
        ) {
            (Some(kind), Some(from), Some(to), Some(ev), Some(attrs)) => match EdgeKind::named(
                kind.as_str(),
            ) {
                Some(kind) => Some(
                    Fact::Edge(Edge { kind, from: Id(from), to: Id(to), ev, attrs }),
                ),
                None => None,
            },
            _ => None,
        }
    } else {
        None
    }
}

/// What a fact of a kind knows.
fn names_of(t: &str) -> (names: Vec<String>)
    ensures
        names.deep_view() == fact_names(t@),
{
    let names = if text::same(t, "header") {
        words(&["t", "schema", "extractor", "root"])
    } else if text::same(t, "node") {
        words(&["t", "id", "kind", "attrs"])
    } else {
        words(&["t", "kind", "from", "to", "ev", "attrs"])
    };
    assert(names.deep_view() =~= fact_names(t@));
    names
}

/// Reads the fact a value stands for.
pub fn read_fact(j: &Json) -> (fact: Option<Fact>)
    ensures
        fact.deep_view() == fact_read(j.deep_view()),
{
    match j.as_object() {
        Some(fields) => {
            if let Some(t) = str_at(fields, "t") {
                if said::are_once(fields, &names_of(t.as_str())) {
                    return read_fact_of(fields);
                }
            }
            return None;
        },
        None => {},
    }
    let items = match j.as_list() {
        Some(items) => items,
        None => return None,
    };
    if items.len() == 0 {
        return None;
    }
    assert(items.deep_view()[0] == items@[0].deep_view());
    let t = match &items[0] {
        Json::Str(t) => t,
        _ => return None,
    };
    let names = names_of(t.as_str());
    let least: usize = if text::same(t.as_str(), "node") {
        3
    } else {
        4
    };
    match list_fields(items, &names, least) {
        Some(fields) => read_fact_of(&fields),
        None => None,
    }
}

// --- what is written is what is read -----------------------------------------

proof fn lemma_keys_differ()
    ensures
        "file"@ != "line"@,
        "file"@ != "col"@,
        "file"@ != "extractor"@,
        "file"@ != "source"@,
        "line"@ != "col"@,
        "line"@ != "extractor"@,
        "line"@ != "source"@,
        "col"@ != "extractor"@,
        "col"@ != "source"@,
        "extractor"@ != "source"@,
        "static"@ != "runtime"@,
        "header"@ != "node"@,
        "header"@ != "edge"@,
        "node"@ != "edge"@,
        "t"@ != "schema"@,
        "t"@ != "extractor"@,
        "t"@ != "root"@,
        "t"@ != "id"@,
        "t"@ != "kind"@,
        "t"@ != "attrs"@,
        "t"@ != "from"@,
        "t"@ != "to"@,
        "t"@ != "ev"@,
        "schema"@ != "extractor"@,
        "schema"@ != "root"@,
        "extractor"@ != "root"@,
        "id"@ != "kind"@,
        "id"@ != "attrs"@,
        "kind"@ != "attrs"@,
        "kind"@ != "from"@,
        "kind"@ != "to"@,
        "kind"@ != "ev"@,
        "from"@ != "to"@,
        "from"@ != "ev"@,
        "from"@ != "attrs"@,
        "to"@ != "ev"@,
        "to"@ != "attrs"@,
        "ev"@ != "attrs"@,
{
    reveal_strlit("file");
    reveal_strlit("line");
    reveal_strlit("col");
    reveal_strlit("extractor");
    reveal_strlit("source");
    reveal_strlit("static");
    reveal_strlit("runtime");
    reveal_strlit("header");
    reveal_strlit("node");
    reveal_strlit("edge");
    reveal_strlit("t");
    reveal_strlit("schema");
    reveal_strlit("root");
    reveal_strlit("id");
    reveal_strlit("kind");
    reveal_strlit("attrs");
    reveal_strlit("from");
    reveal_strlit("to");
    reveal_strlit("ev");
    assert("file"@[0] != "line"@[0]);
    assert("file"@.len() == 4);
    assert("line"@.len() == 4);
    assert("col"@.len() == 3);
    assert("extractor"@.len() == 9);
    assert("source"@.len() == 6);
    assert("static"@.len() == 6);
    assert("runtime"@.len() == 7);
    assert("header"@.len() == 6);
    assert("node"@.len() == 4);
    assert("edge"@.len() == 4);
    assert("t"@.len() == 1);
    assert("schema"@.len() == 6);
    assert("root"@.len() == 4);
    assert("id"@.len() == 2);
    assert("kind"@.len() == 4);
    assert("attrs"@.len() == 5);
    assert("from"@.len() == 4);
    assert("to"@.len() == 2);
    assert("ev"@.len() == 2);
    assert("node"@[0] != "edge"@[0]);
    assert("kind"@[0] != "from"@[0]);
    assert("to"@[0] != "ev"@[0]);
}

proof fn lemma_evidence_kept(e: EvidenceV)
    ensures
        evidence_read(JsonV::Object(evidence_fields(e))) == Some(e),
{
    broadcast use crate::table::lemma_lookup_push;

    lemma_keys_differ();
    lemma_evidence_plain(e, 3);
    said::lemma_once(evidence_fields(e), evidence_known());
    assert(table::lookup(Seq::<(Text, JsonV)>::empty(), "file"@) is None);
}

proof fn lemma_evidence_list_kept(ev: Seq<EvidenceV>, n: nat)
    requires
        n <= ev.len(),
    ensures
        evidence_list(ev, n).len() == n,
        evidence_items(evidence_list(ev, n), n) == Some(ev.take(n as int)),
    decreases n,
{
    if n == 0 {
        assert(ev.take(0) =~= seq![]);
    } else {
        lemma_evidence_list_kept(ev, (n - 1) as nat);
        lemma_evidence_kept(ev[n - 1]);
        lemma_evidence_prefix(evidence_list(ev, (n - 1) as nat), evidence_list(ev, n), (n - 1) as nat);
        assert(ev.take(n - 1).push(ev[n - 1]) =~= ev.take(n as int));
    }
}

proof fn lemma_evidence_prefix(a: Seq<JsonV>, b: Seq<JsonV>, n: nat)
    requires
        n <= a.len() <= b.len(),
        forall|i: int| 0 <= i < n ==> a[i] == b[i],
    ensures
        evidence_items(a, n) == evidence_items(b, n),
    decreases n,
{
    if n > 0 {
        lemma_evidence_prefix(a, b, (n - 1) as nat);
    }
}

/// An edge's fields stand for the edge, whatever other fields they follow.
pub proof fn lemma_edge_kept(start: Seq<(Text, JsonV)>, edge: EdgeV)
    requires
        table::lookup(start, "kind"@) is None,
        table::lookup(start, "from"@) is None,
        table::lookup(start, "to"@) is None,
        table::lookup(start, "ev"@) is None,
        table::lookup(start, "attrs"@) is None,
        attrs_plain(edge.attrs),
    ensures
        edge_read(edge_fields(start, edge)) == Some(edge),
{
    broadcast use crate::table::lemma_lookup_push;

    lemma_keys_differ();
    schema::lemma_edge_kinds(edge.kind.spelled());
    lemma_evidence_list_kept(edge.ev, edge.ev.len());
    said::lemma_settled(JsonV::Object(edge.attrs), (json::depth_limit() - 1) as nat);
    assert(edge.ev.take(edge.ev.len() as int) =~= edge.ev);
    if edge.attrs.len() == 0 {
        assert(edge.attrs =~= seq![]);
    }
    if edge.ev.len() == 0 {
        assert(edge.ev =~= seq![]);
    }
}

proof fn lemma_tag_stays(start: Seq<(Text, JsonV)>, edge: EdgeV)
    requires
        table::lookup(start, "t"@) is Some,
    ensures
        table::lookup(edge_fields(start, edge), "t"@) == table::lookup(start, "t"@),
{
    broadcast use crate::table::lemma_lookup_push;

}

/// Whether a fact's own attributes are values that can be written and read.
pub open spec fn attrs_plain(attrs: Seq<(Text, JsonV)>) -> bool {
    json::plain(JsonV::Object(attrs), (json::depth_limit() - 1) as nat)
}

pub open spec fn fact_plain(fact: FactV) -> bool {
    match fact {
        FactV::Header { .. } => true,
        FactV::Node(node) => attrs_plain(node.attrs),
        FactV::Edge(edge) => attrs_plain(edge.attrs),
    }
}

/// Whether attributes are words, numbers and marks, each under a name of its
/// own.
pub open spec fn neat(attrs: Seq<(Text, JsonV)>) -> bool {
    &&& json::distinct_keys(attrs)
    &&& forall|i: int|
        0 <= i < attrs.len() ==> {
            let value = (#[trigger] attrs[i]).1;
            value is Str || value is Whole || value is Bool
        }
}

pub broadcast proof fn lemma_neat(attrs: Seq<(Text, JsonV)>, key: Text, value: JsonV)
    requires
        neat(attrs),
        value is Str || value is Whole || value is Bool,
    ensures
        neat(#[trigger] json::with_field(attrs, key, value)),
        forall|i: int|
            0 <= i < json::with_field(attrs, key, value).len() ==> (#[trigger] json::with_field(
                attrs,
                key,
                value,
            )[i]).0 == key || exists|j: int|
                0 <= j < attrs.len() && attrs[j].0 == json::with_field(attrs, key, value)[i].0,
    decreases attrs.len(),
{
    let after = json::with_field(attrs, key, value);
    if attrs.len() > 0 {
        let rest = attrs.skip(1);
        assert forall|i: int, j: int| 0 <= i < j < rest.len() implies #[trigger] rest[i].0
            != #[trigger] rest[j].0 by {
            assert(attrs[i + 1].0 != attrs[j + 1].0);
        }
        assert(neat(rest));
        lemma_neat(rest, key, value);
        let below = json::with_field(rest, key, value);
        if attrs[0].0 == key {
            assert(after =~= seq![(key, value)] + rest);
            assert forall|i: int, j: int| 0 <= i < j < after.len() implies #[trigger] after[i].0
                != #[trigger] after[j].0 by {
                assert(attrs[i].0 != attrs[j].0);
            }
            assert forall|i: int| 0 <= i < after.len() implies (#[trigger] after[i]).0 == key
                || exists|j: int| 0 <= j < attrs.len() && attrs[j].0 == after[i].0 by {
                if i > 0 {
                    assert(attrs[i].0 == after[i].0);
                }
            }
        } else {
            assert(after =~= seq![attrs[0]] + below);
            assert forall|i: int, j: int| 0 <= i < j < after.len() implies #[trigger] after[i].0
                != #[trigger] after[j].0 by {
                if i == 0 {
                    assert(after[j] == below[j - 1]);
                    if below[j - 1].0 != key {
                        let k = choose|k: int|
                            0 <= k < rest.len() && rest[k].0 == below[j - 1].0;
                        assert(attrs[0].0 != attrs[k + 1].0);
                    }
                } else {
                    assert(below[i - 1].0 != below[j - 1].0);
                }
            }
            assert forall|i: int| 0 <= i < after.len() implies (#[trigger] after[i]).0 == key
                || exists|j: int| 0 <= j < attrs.len() && attrs[j].0 == after[i].0 by {
                if i == 0 {
                    assert(attrs[0].0 == after[0].0);
                } else if below[i - 1].0 != key {
                    let k = choose|k: int| 0 <= k < rest.len() && rest[k].0 == below[i - 1].0;
                    assert(attrs[k + 1].0 == after[i].0);
                }
            }
        }
    }
}

/// Whether what a fact says of itself is neat.
pub open spec fn tidy(fact: FactV) -> bool {
    match fact {
        FactV::Header { .. } => true,
        FactV::Node(node) => neat(node.attrs),
        FactV::Edge(edge) => neat(edge.attrs),
    }
}

/// A fact that is tidy is plain.
pub proof fn lemma_tidy(fact: FactV)
    requires
        tidy(fact),
    ensures
        fact_plain(fact),
{
    reveal_with_fuel(json::plain, 2);
}

proof fn lemma_items_plain(items: Seq<JsonV>, depth: nat)
    requires
        json::plain(JsonV::List(items), depth),
    ensures
        forall|i: int| 0 <= i < items.len() ==> json::plain(#[trigger] items[i], (depth - 1) as nat),
{
    assert forall|i: int| 0 <= i < items.len() implies json::plain(
        #[trigger] items[i],
        (depth - 1) as nat,
    ) by {
        let v = JsonV::List(items);
        assert(json::plain(v->List_0[i], (depth - 1) as nat));
    }
}

proof fn lemma_list_plain(ev: Seq<EvidenceV>, n: nat, depth: nat)
    requires
        n <= ev.len(),
        depth >= 4,
    ensures
        json::plain(JsonV::List(evidence_list(ev, n)), depth),
    decreases n,
{
    if n > 0 {
        lemma_list_plain(ev, (n - 1) as nat, depth);
        lemma_evidence_plain(ev[n - 1], (depth - 1) as nat);
        let before = evidence_list(ev, (n - 1) as nat);
        let items = evidence_list(ev, n);
        lemma_items_plain(before, depth);
        assert forall|i: int| 0 <= i < items.len() implies json::plain(
            #[trigger] items[i],
            (depth - 1) as nat,
        ) by {
            if i < before.len() {
                assert(items[i] == before[i]);
                assert(json::plain(before[i], (depth - 1) as nat));
            } else {
                assert(items[i] == JsonV::Object(evidence_fields(ev[n - 1])));
            }
        }
    }
}

proof fn lemma_evidence_plain(e: EvidenceV, depth: nat)
    requires
        depth >= 3,
    ensures
        json::plain(JsonV::Object(evidence_fields(e)), depth),
{
    lemma_keys_differ();
    reveal_with_fuel(json::plain, 4);
}

/// A fact whose attributes are plain is written as a plain object.
pub proof fn lemma_fact_plain(fact: FactV)
    requires
        fact_plain(fact),
    ensures
        json::plain(JsonV::Object(fact_fields(fact)), json::depth_limit()),
{
    lemma_keys_differ();
    reveal_with_fuel(json::plain, 2);
    match fact {
        FactV::Header { .. } => {},
        FactV::Node(_) => {},
        FactV::Edge(edge) => {
            lemma_list_plain(edge.ev, edge.ev.len(), (json::depth_limit() - 1) as nat);
        },
    }
}

/// The word for the kind of a fact.
spec fn kind_said(fact: FactV) -> Text {
    match fact {
        FactV::Header { .. } => "header"@,
        FactV::Node(_) => "node"@,
        FactV::Edge(_) => "edge"@,
    }
}

/// Reading a fact's object gives the fact back, where its attributes are plain.
pub proof fn lemma_fact_kept(fact: FactV)
    requires
        fact_plain(fact),
    ensures
        fact_read(JsonV::Object(fact_fields(fact))) == Some(fact),
{
    broadcast use crate::table::lemma_lookup_push;

    lemma_keys_differ();
    lemma_fact_plain(fact);
    said::lemma_once(fact_fields(fact), fact_names(kind_said(fact)));
    assert(table::lookup(Seq::<(Text, JsonV)>::empty(), "t"@) is None);
    match fact {
        FactV::Header { .. } => {},
        FactV::Node(node) => {
            schema::lemma_node_kinds(node.kind.spelled());
            said::lemma_settled(JsonV::Object(node.attrs), (json::depth_limit() - 1) as nat);
            if node.attrs.len() == 0 {
                assert(node.attrs =~= seq![]);
            }
        },
        FactV::Edge(edge) => {
            let start = seq![("t"@, JsonV::Str("edge"@))];
            lemma_edge_kept(start, edge);
            lemma_tag_stays(start, edge);
        },
    }
}

// --- what stands on a line ---------------------------------------------------

/// An edge stands on its line with its kind and its two ends under their names,
/// and with the places it was seen at.
#[verifier::rlimit(60)]
pub proof fn lemma_edge_fields(edge: EdgeV)
    ensures
        ({
            let fields = fact_fields(FactV::Edge(edge));
            &&& table::lookup(fields, "t"@) == Some(JsonV::Str("edge"@))
            &&& table::lookup(fields, "kind"@) == Some(JsonV::Str(edge.kind.spelled()))
            &&& table::lookup(fields, "from"@) == Some(JsonV::Str(edge.from))
            &&& table::lookup(fields, "to"@) == Some(JsonV::Str(edge.to))
            &&& edge.attrs.len() > 0 ==> table::lookup(fields, "attrs"@) == Some(
                JsonV::Object(edge.attrs),
            )
            &&& edge.ev.len() > 0 ==> (table::lookup(fields, "ev"@) matches Some(JsonV::List(list))
                && list.len() == edge.ev.len() && forall|i: int|
                0 <= i < list.len() ==> #[trigger] list[i] == JsonV::Object(
                    evidence_fields(edge.ev[i]),
                ))
        }),
{
    broadcast use crate::table::lemma_lookup_push;

    reveal_strlit("t");
    reveal_strlit("kind");
    reveal_strlit("from");
    reveal_strlit("to");
    reveal_strlit("ev");
    reveal_strlit("attrs");
    assert("t"@.len() == 1 && "kind"@.len() == 4 && "from"@.len() == 4 && "attrs"@.len() == 5);
    assert("kind"@[0] == 'k' && "from"@[0] == 'f' && "to"@[0] == 't' && "ev"@[0] == 'e');
    assert("to"@.len() == 2 && "ev"@.len() == 2);
    let first = seq![("t"@, JsonV::Str("edge"@))];
    assert(first.skip(1) =~= seq![]);
    assert(table::lookup(first, "t"@) == Some(JsonV::Str("edge"@)));
    assert(forall|other: Text| other != "t"@ ==> #[trigger] table::lookup(first, other) is None);
    lemma_evidence_listed(edge.ev, edge.ev.len());
}

proof fn lemma_evidence_listed(ev: Seq<EvidenceV>, n: nat)
    requires
        n <= ev.len(),
    ensures
        evidence_list(ev, n).len() == n,
        forall|i: int|
            0 <= i < n ==> #[trigger] evidence_list(ev, n)[i] == JsonV::Object(
                evidence_fields(ev[i]),
            ),
    decreases n,
{
    if n > 0 {
        lemma_evidence_listed(ev, (n - 1) as nat);
    }
}

/// A node stands on its line with its id and its kind.
pub proof fn lemma_node_fields(node: NodeV)
    ensures
        ({
            let fields = fact_fields(FactV::Node(node));
            &&& table::lookup(fields, "t"@) == Some(JsonV::Str("node"@))
            &&& table::lookup(fields, "id"@) == Some(JsonV::Str(node.id))
            &&& table::lookup(fields, "kind"@) == Some(JsonV::Str(node.kind.spelled()))
            &&& node.attrs.len() > 0 ==> table::lookup(fields, "attrs"@) == Some(
                JsonV::Object(node.attrs),
            )
        }),
{
    broadcast use crate::table::lemma_lookup_push;

    reveal_strlit("t");
    reveal_strlit("id");
    reveal_strlit("kind");
    reveal_strlit("attrs");
    assert("t"@.len() == 1 && "id"@.len() == 2 && "kind"@.len() == 4 && "attrs"@.len() == 5);
    let first = seq![("t"@, JsonV::Str("node"@))];
    assert(first.skip(1) =~= seq![]);
    assert(table::lookup(first, "t"@) == Some(JsonV::Str("node"@)));
    assert(forall|other: Text| other != "t"@ ==> #[trigger] table::lookup(first, other) is None);
}

/// A place is shown by its file, its first and last line, and its columns where it
/// has any.
#[verifier::rlimit(40)]
pub proof fn lemma_evidence_fields(e: EvidenceV)
    ensures
        ({
            let fields = evidence_fields(e);
            &&& table::lookup(fields, "file"@) == Some(JsonV::Str(e.file))
            &&& table::lookup(fields, "line"@) == Some(
                JsonV::List(seq![JsonV::Whole(e.line.0 as u64), JsonV::Whole(e.line.1 as u64)]),
            )
            &&& table::lookup(fields, "extractor"@) == Some(JsonV::Str(e.extractor))
            &&& e.col matches Some(col) ==> table::lookup(fields, "col"@) == Some(
                JsonV::List(seq![JsonV::Whole(col.0 as u64), JsonV::Whole(col.1 as u64)]),
            )
            &&& e.col is None ==> table::lookup(fields, "col"@) is None
            &&& e.source == Source::Runtime ==> table::lookup(fields, "source"@) == Some(
                JsonV::Str("runtime"@),
            )
            &&& e.source != Source::Runtime ==> table::lookup(fields, "source"@) is None
        }),
{
    broadcast use crate::table::lemma_lookup_push;

    reveal_strlit("file");
    reveal_strlit("line");
    reveal_strlit("col");
    reveal_strlit("extractor");
    reveal_strlit("source");
    assert("file"@[0] == 'f' && "line"@[0] == 'l' && "col"@.len() == 3);
    assert("file"@.len() == 4 && "line"@.len() == 4 && "extractor"@.len() == 9);
    assert("source"@.len() == 6);
    let first = seq![("file"@, JsonV::Str(e.file))];
    assert(first.skip(1) =~= seq![]);
    assert(table::lookup(first, "file"@) == Some(JsonV::Str(e.file)));
    assert(forall|other: Text| other != "file"@ ==> #[trigger] table::lookup(first, other) is None);
}

}
