//! The project vocabulary: page types, block types, relations, statuses and
//! Logseq rendering labels, with the queries every command makes of it.
//!
//! Every map of the vocabulary is an association list whose keys are
//! strictly increasing (`ProjectSchema::wf`), the ordered form of the
//! key-unique map that the YAML file describes.
use vstd::prelude::*;
use crate::text::{views, join, cat3, cat5, join_strings, str_eq, str_lt, seq_lt, sort_strings, seq_leq};
use crate::seqs::{keys_sorted, has_key, lookup, find_key, contains_key, key_is, first_index, is_first, holds, contains_str, lemma_first_index, any_of};
use crate::payload::{Json, OutEvent, pstr, pstr_list, field, out_event};

verus! {

/// A property the vocabulary defines (`properties:`).
pub struct PropertyDef {
    pub prop_type: String,
    pub values: Vec<String>,
}

/// A page type (`pageTypes:`): the properties it uses, the statuses allowed
/// for it and the other names it goes by.
pub struct PageTypeDef {
    pub uses: Vec<String>,
    pub allowed_statuses: Vec<String>,
    pub aliases: Vec<String>,
}

/// A block type (`blockTypes:`): the Logseq task markers it maps to
/// statuses, and the properties it uses.
pub struct BlockTypeDef {
    pub markers: Vec<(String, String)>,
    pub uses: Vec<String>,
}

/// A relation (`relations:`) between item types.
pub struct RelationDef {
    pub source: Vec<String>,
    pub target: Vec<String>,
}

/// Logseq labels of a relation, read from the source and from the target.
pub struct RelationLabels {
    pub forward_label: String,
    pub inverse_label: String,
}

/// The Logseq renderer settings.
pub struct LogseqRenderer {
    pub relations: Vec<(String, RelationLabels)>,
    pub properties: Vec<(String, String)>,
}

/// The renderer settings (`renderers:`).
pub struct RendererConfig {
    pub logseq: LogseqRenderer,
}

/// A project vocabulary.
pub struct ProjectSchema {
    pub schema_version: u32,
    pub properties: Vec<(String, PropertyDef)>,
    /// The status names (`statuses:` keys), in increasing order.
    pub statuses: Vec<String>,
    pub page_types: Vec<(String, PageTypeDef)>,
    pub block_types: Vec<(String, BlockTypeDef)>,
    pub relations: Vec<(String, RelationDef)>,
    pub renderers: RendererConfig,
}

/// The schema version assumed when the file gives none.
pub fn default_schema_version() -> (r: u32)
    ensures
        r == 1,
{
    1
}

impl ProjectSchema {
    /// Every map of the vocabulary has strictly increasing keys (so no key
    /// occurs twice), and so does the list of status names; the markers of a
    /// block type keep the order the vocabulary defines them in, none twice.
    pub open spec fn wf(&self) -> bool {
        &&& keys_sorted(self.properties@)
        &&& forall|i: int, j: int| 0 <= i < j < self.statuses.len() ==> seq_lt(#[trigger] self.statuses@[i]@, #[trigger] self.statuses@[j]@)
        &&& keys_sorted(self.page_types@)
        &&& keys_sorted(self.block_types@)
        &&& forall|i: int, j: int, k: int| 0 <= i < self.block_types.len() && 0 <= j < k < self.block_types@[i].1.markers.len()
                ==> #[trigger] self.block_types@[i].1.markers@[j].0@ != #[trigger] self.block_types@[i].1.markers@[k].0@
        &&& keys_sorted(self.relations@)
        &&& keys_sorted(self.renderers.logseq.relations@)
        &&& keys_sorted(self.renderers.logseq.properties@)
    }
}

/// Whether the keys of a map are strictly increasing.
fn keys_increasing<V>(e: &Vec<(String, V)>) -> (r: bool)
    ensures
        r == keys_sorted(e@),
{
    let mut i: usize = 1;
    if e.len() == 0 {
        return true;
    }
    while i < e.len()
        invariant
            1 <= i <= e.len(),
            forall|a: int, b: int| 0 <= a < b < i ==> seq_lt(#[trigger] e@[a].0@, #[trigger] e@[b].0@),
        decreases e.len() - i,
    {
        if !str_lt(e[i - 1].0.as_str(), e[i].0.as_str()) {
            return false;
        }
        proof {
            assert forall|a: int, b: int| 0 <= a < b < i + 1 implies seq_lt(#[trigger] e@[a].0@, #[trigger] e@[b].0@) by {
                if b == i && a < i - 1 {
                    crate::text::lemma_seq_lt_transitive(e@[a].0@, e@[i - 1].0@, e@[i as int].0@);
                }
            }
        }
        i = i + 1;
    }
    true
}

/// Whether a list of names is strictly increasing.
fn names_increasing(v: &Vec<String>) -> (r: bool)
    ensures
        r == forall|i: int, j: int| 0 <= i < j < v.len() ==> seq_lt(#[trigger] v@[i]@, #[trigger] v@[j]@),
{
    let mut i: usize = 1;
    if v.len() == 0 {
        return true;
    }
    while i < v.len()
        invariant
            1 <= i <= v.len(),
            forall|a: int, b: int| 0 <= a < b < i ==> seq_lt(#[trigger] v@[a]@, #[trigger] v@[b]@),
        decreases v.len() - i,
    {
        if !str_lt(v[i - 1].as_str(), v[i].as_str()) {
            return false;
        }
        proof {
            assert forall|a: int, b: int| 0 <= a < b < i + 1 implies seq_lt(#[trigger] v@[a]@, #[trigger] v@[b]@) by {
                if b == i && a < i - 1 {
                    crate::text::lemma_seq_lt_transitive(v@[a]@, v@[i - 1]@, v@[i as int]@);
                }
            }
        }
        i = i + 1;
    }
    true
}

/// Whether no marker name occurs twice.
fn markers_distinct(m: &Vec<(String, String)>) -> (r: bool)
    ensures
        r == forall|j: int, k: int| 0 <= j < k < m.len() ==> #[trigger] m@[j].0@ != #[trigger] m@[k].0@,
{
    let mut k: usize = 0;
    while k < m.len()
        invariant
            k <= m.len(),
            forall|a: int, b: int| 0 <= a < b < k ==> #[trigger] m@[a].0@ != #[trigger] m@[b].0@,
        decreases m.len() - k,
    {
        let mut j: usize = 0;
        while j < k
            invariant
                j <= k < m.len(),
                forall|a: int, b: int| 0 <= a < b < k ==> #[trigger] m@[a].0@ != #[trigger] m@[b].0@,
                forall|a: int| 0 <= a < j ==> #[trigger] m@[a].0@ != m@[k as int].0@,
            decreases k - j,
        {
            if str_eq(m[j].0.as_str(), m[k].0.as_str()) {
                return false;
            }
            j = j + 1;
        }
        k = k + 1;
    }
    true
}

/// Whether the vocabulary is well formed: its maps have strictly increasing
/// keys, its status names strictly increase, and no block type defines a
/// marker twice.
pub fn is_well_formed(schema: &ProjectSchema) -> (r: bool)
    ensures
        r == schema.wf(),
{
    if !keys_increasing(&schema.properties) || !names_increasing(&schema.statuses) || !keys_increasing(&schema.page_types)
        || !keys_increasing(&schema.block_types) || !keys_increasing(&schema.relations)
        || !keys_increasing(&schema.renderers.logseq.relations) || !keys_increasing(&schema.renderers.logseq.properties) {
        return false;
    }
    let mut i: usize = 0;
    while i < schema.block_types.len()
        invariant
            i <= schema.block_types.len(),
            forall|a: int, j: int, k: int| 0 <= a < i && 0 <= j < k < schema.block_types@[a].1.markers.len()
                ==> #[trigger] schema.block_types@[a].1.markers@[j].0@ != #[trigger] schema.block_types@[a].1.markers@[k].0@,
        decreases schema.block_types.len() - i,
    {
        if !markers_distinct(&schema.block_types[i].1.markers) {
            return false;
        }
        i = i + 1;
    }
    true
}

/// What a failure to load or validate the vocabulary is, as values.
pub ghost enum SchemaErrorView {
    NotFound { searched: Seq<Seq<char>> },
    ParseError { detail: Seq<char> },
    ValidationFailed { rule: Seq<char>, detail: Seq<char> },
    AliasCollision { alias_value: Seq<char>, collides_with: Seq<char> },
}

/// A failure to load or validate the vocabulary.
pub enum SchemaError {
    NotFound { searched: Vec<String> },
    ParseError { detail: String },
    ValidationFailed { rule: String, detail: String },
    AliasCollision { alias_value: String, collides_with: String },
}

impl View for SchemaError {
    type V = SchemaErrorView;

    open spec fn view(&self) -> SchemaErrorView {
        match self {
            SchemaError::NotFound { searched } => SchemaErrorView::NotFound { searched: views(searched@) },
            SchemaError::ParseError { detail } => SchemaErrorView::ParseError { detail: detail@ },
            SchemaError::ValidationFailed { rule, detail } => SchemaErrorView::ValidationFailed { rule: rule@, detail: detail@ },
            SchemaError::AliasCollision { alias_value, collides_with } => SchemaErrorView::AliasCollision {
                alias_value: alias_value@,
                collides_with: collides_with@,
            },
        }
    }
}

/// The event type recorded for a failure.
pub open spec fn error_event_type(e: SchemaErrorView) -> Seq<char> {
    match e {
        SchemaErrorView::NotFound { .. } => "SchemaNotFound"@,
        SchemaErrorView::ParseError { .. } => "SchemaParseError"@,
        SchemaErrorView::ValidationFailed { .. } => "SchemaValidationFailed"@,
        SchemaErrorView::AliasCollision { .. } => "SchemaAliasCollisionDetected"@,
    }
}

/// The message shown for a failure.
pub open spec fn error_message(e: SchemaErrorView) -> Seq<char> {
    match e {
        SchemaErrorView::NotFound { searched } => "No vocabulary definition found. Searched: "@ + join(searched, ", "@),
        SchemaErrorView::ParseError { detail } => "Schema parse error: "@ + detail,
        SchemaErrorView::ValidationFailed { rule, detail } => "Schema validation failed ("@ + rule + "): "@ + detail,
        SchemaErrorView::AliasCollision { alias_value, collides_with } =>
            "Alias collision: '"@ + alias_value + "' collides with '"@ + collides_with + "'"@,
    }
}

impl SchemaError {
    /// The event type recorded for this failure.
    pub fn event_type(&self) -> (r: &'static str)
        ensures
            r@ == error_event_type(self@),
    {
        match self {
            SchemaError::NotFound { .. } => "SchemaNotFound",
            SchemaError::ParseError { .. } => "SchemaParseError",
            SchemaError::ValidationFailed { .. } => "SchemaValidationFailed",
            SchemaError::AliasCollision { .. } => "SchemaAliasCollisionDetected",
        }
    }

    /// The payload recorded for this failure, field by field.
    pub fn to_payload(&self) -> (r: Vec<(String, Json)>)
        ensures
            payload_of_error(self@, r@),
    {
        let mut p: Vec<(String, Json)> = Vec::new();
        match self {
            SchemaError::NotFound { searched } => {
                p.push(field("failure_reason", pstr("schema_not_found")));
                p.push(field("searched_locations", pstr_list(searched)));
            },
            SchemaError::ParseError { detail } => {
                p.push(field("failure_reason", pstr("schema_parse_error")));
                p.push(field("detail", pstr(detail.as_str())));
            },
            SchemaError::ValidationFailed { rule, detail } => {
                p.push(field("failure_reason", pstr("schema_validation_failed")));
                p.push(field("violated_rule", pstr(rule.as_str())));
                p.push(field("detail", pstr(detail.as_str())));
            },
            SchemaError::AliasCollision { alias_value, collides_with } => {
                p.push(field("failure_reason", pstr("alias_collision")));
                p.push(field("alias_value", pstr(alias_value.as_str())));
                p.push(field("collides_with", pstr(collides_with.as_str())));
            },
        }
        p
    }

    /// The message shown for this failure.
    pub fn message(&self) -> (r: String)
        ensures
            r@ == error_message(self@),
    {
        match self {
            SchemaError::NotFound { searched } => {
                let mut r = "No vocabulary definition found. Searched: ".to_owned();
                let j = join_strings(searched, ", ");
                r.append(j.as_str());
                r
            },
            SchemaError::ParseError { detail } => {
                let mut r = "Schema parse error: ".to_owned();
                r.append(detail.as_str());
                r
            },
            SchemaError::ValidationFailed { rule, detail } => {
                let mut r = cat3("Schema validation failed (", rule.as_str(), "): ");
                r.append(detail.as_str());
                r
            },
            SchemaError::AliasCollision { alias_value, collides_with } => {
                cat5("Alias collision: '", alias_value.as_str(), "' collides with '", collides_with.as_str(), "'")
            },
        }
    }
}

/// `p` is the payload recorded for the failure `e`.
pub open spec fn payload_of_error(e: SchemaErrorView, p: Seq<(String, Json)>) -> bool {
    match e {
        SchemaErrorView::NotFound { searched } => {
            &&& p.len() == 2
            &&& p[0].0@ == "failure_reason"@ && crate::payload::is_str(p[0].1, "schema_not_found"@)
            &&& p[1].0@ == "searched_locations"@ && crate::payload::is_str_list(p[1].1, searched)
        },
        SchemaErrorView::ParseError { detail } => {
            &&& p.len() == 2
            &&& p[0].0@ == "failure_reason"@ && crate::payload::is_str(p[0].1, "schema_parse_error"@)
            &&& p[1].0@ == "detail"@ && crate::payload::is_str(p[1].1, detail)
        },
        SchemaErrorView::ValidationFailed { rule, detail } => {
            &&& p.len() == 3
            &&& p[0].0@ == "failure_reason"@ && crate::payload::is_str(p[0].1, "schema_validation_failed"@)
            &&& p[1].0@ == "violated_rule"@ && crate::payload::is_str(p[1].1, rule)
            &&& p[2].0@ == "detail"@ && crate::payload::is_str(p[2].1, detail)
        },
        SchemaErrorView::AliasCollision { alias_value, collides_with } => {
            &&& p.len() == 3
            &&& p[0].0@ == "failure_reason"@ && crate::payload::is_str(p[0].1, "alias_collision"@)
            &&& p[1].0@ == "alias_value"@ && crate::payload::is_str(p[1].1, alias_value)
            &&& p[2].0@ == "collides_with"@ && crate::payload::is_str(p[2].1, collides_with)
        },
    }
}


/// The entry is a page type one of whose aliases is `t`.
pub open spec fn alias_of(t: Seq<char>) -> spec_fn((String, PageTypeDef)) -> bool {
    |e: (String, PageTypeDef)| holds(e.1.aliases@, t)
}

/// The canonical name of the type named `t`: `t` itself when a page or
/// block type has that name, else the page type (the first, in key order)
/// that lists `t` among its aliases.
pub open spec fn resolved_type(s: ProjectSchema, t: Seq<char>) -> Option<Seq<char>> {
    if has_key(s.page_types@, t) || has_key(s.block_types@, t) {
        Some(t)
    } else {
        match first_index(s.page_types@, alias_of(t)) {
            Some(i) => Some(s.page_types@[i].0@),
            None => None,
        }
    }
}

/// The optional view of an optional string slice.
pub open spec fn opt_str_view(o: Option<&str>) -> Option<Seq<char>> {
    match o {
        Some(t) => Some(t@),
        None => None,
    }
}

/// Resolves `tname` to its canonical name, following aliases.
/// Returns `None` if the type is not in the schema.
pub fn resolve_type<'a>(schema: &'a ProjectSchema, tname: &'a str) -> (r: Option<&'a str>)
    ensures
        opt_str_view(r) == resolved_type(*schema, tname@),
{
    if contains_key(&schema.page_types, tname) || contains_key(&schema.block_types, tname) {
        return Some(tname);
    }
    let mut i: usize = 0;
    while i < schema.page_types.len()
        invariant
            i <= schema.page_types.len(),
            !has_key(schema.page_types@, tname@),
            !has_key(schema.block_types@, tname@),
            forall|j: int| 0 <= j < i ==> !alias_of(tname@)(#[trigger] schema.page_types@[j]),
        decreases schema.page_types.len() - i,
    {
        if contains_str(&schema.page_types[i].1.aliases, tname) {
            proof {
                assert(is_first(schema.page_types@, alias_of(tname@), i as int));
                lemma_first_index(schema.page_types@, alias_of(tname@), i as int);
            }
            return Some(schema.page_types[i].0.as_str());
        }
        i = i + 1;
    }
    None
}

/// Whether `status` is valid for the page type keyed `tname`: one of
/// its allowed statuses when it lists any, else any status the vocabulary
/// defines.
pub open spec fn status_valid_for(s: ProjectSchema, t: Seq<char>, status: Seq<char>) -> bool {
    match lookup(s.page_types@, t) {
        Some(def) if def.allowed_statuses.len() > 0 => holds(def.allowed_statuses@, status),
        _ => holds(s.statuses@, status),
    }
}

/// Checks whether `status` is valid for `tname` according to the schema.
pub fn is_valid_status(schema: &ProjectSchema, tname: &str, status: &str) -> (r: bool)
    ensures
        r == status_valid_for(*schema, tname@, status@),
{
    match find_key(&schema.page_types, tname) {
        Some(i) => {
            if schema.page_types[i].1.allowed_statuses.len() > 0 {
                return contains_str(&schema.page_types[i].1.allowed_statuses, status);
            }
        },
        None => {},
    }
    contains_str(&schema.statuses, status)
}

/// The entry is a block type whose markers include `m`.
pub open spec fn maps_marker(m: Seq<char>) -> spec_fn((String, BlockTypeDef)) -> bool {
    |e: (String, BlockTypeDef)| has_key(e.1.markers@, m)
}

/// The status that the task marker `m` stands for: its mapping in the first
/// block type (in key order) that maps it.
pub open spec fn marker_status(s: ProjectSchema, m: Seq<char>) -> Option<Seq<char>> {
    match first_index(s.block_types@, maps_marker(m)) {
        Some(i) => match lookup(s.block_types@[i].1.markers@, m) {
            Some(v) => Some(v@),
            None => None,
        },
        None => None,
    }
}

/// Maps a Logseq task marker to its normalized domain status.
pub fn marker_to_status<'a>(schema: &'a ProjectSchema, marker: &str) -> (r: Option<&'a str>)
    ensures
        opt_str_view(r) == marker_status(*schema, marker@),
{
    let mut i: usize = 0;
    while i < schema.block_types.len()
        invariant
            i <= schema.block_types.len(),
            forall|j: int| 0 <= j < i ==> !maps_marker(marker@)(#[trigger] schema.block_types@[j]),
        decreases schema.block_types.len() - i,
    {
        match find_key(&schema.block_types[i].1.markers, marker) {
            Some(k) => {
                proof {
                    assert(is_first(schema.block_types@, maps_marker(marker@), i as int));
                    lemma_first_index(schema.block_types@, maps_marker(marker@), i as int);
                }
                return Some(schema.block_types[i].1.markers[k].1.as_str());
            },
            None => {},
        }
        i = i + 1;
    }
    None
}

/// The label for `relation` chosen by `pick` from its Logseq labels, or the
/// relation name itself when it has none or the label is empty.
pub open spec fn relation_label(s: ProjectSchema, relation: Seq<char>, forward: bool) -> Seq<char> {
    match lookup(s.renderers.logseq.relations@, relation) {
        Some(l) => {
            let label = if forward { l.forward_label@ } else { l.inverse_label@ };
            if label.len() > 0 { label } else { relation }
        },
        None => relation,
    }
}

/// Forward label for a relation in the Logseq renderer.
pub fn logseq_forward_label<'a>(schema: &'a ProjectSchema, relation: &'a str) -> (r: &'a str)
    ensures
        r@ == relation_label(*schema, relation@, true),
{
    match find_key(&schema.renderers.logseq.relations, relation) {
        Some(i) => {
            let l = schema.renderers.logseq.relations[i].1.forward_label.as_str();
            if l.unicode_len() > 0 { l } else { relation }
        },
        None => relation,
    }
}

/// Inverse label for a relation in the Logseq renderer.
pub fn logseq_inverse_label<'a>(schema: &'a ProjectSchema, relation: &'a str) -> (r: &'a str)
    ensures
        r@ == relation_label(*schema, relation@, false),
{
    match find_key(&schema.renderers.logseq.relations, relation) {
        Some(i) => {
            let l = schema.renderers.logseq.relations[i].1.inverse_label.as_str();
            if l.unicode_len() > 0 { l } else { relation }
        },
        None => relation,
    }
}

/// The Logseq property key of a domain property: its mapping, else itself.
pub open spec fn property_key(s: ProjectSchema, property: Seq<char>) -> Seq<char> {
    match lookup(s.renderers.logseq.properties@, property) {
        Some(k) => k@,
        None => property,
    }
}

/// Logseq property key for a domain property name.
pub fn logseq_property_key<'a>(schema: &'a ProjectSchema, property: &'a str) -> (r: &'a str)
    ensures
        r@ == property_key(*schema, property@),
{
    match find_key(&schema.renderers.logseq.properties, property) {
        Some(i) => schema.renderers.logseq.properties[i].1.as_str(),
        None => property,
    }
}

/// All status names defined in the schema.
pub fn all_status_names(schema: &ProjectSchema) -> (r: Vec<&str>)
    ensures
        r.len() == schema.statuses.len(),
        forall|i: int| 0 <= i < r.len() ==> (#[trigger] r@[i])@ == schema.statuses@[i]@,
        schema.wf() ==> forall|i: int, j: int| 0 <= i < j < r.len() ==> (#[trigger] r@[i])@ != (#[trigger] r@[j])@,
{
    proof {
        if schema.wf() {
            assert forall|i: int, j: int| 0 <= i < j < schema.statuses.len()
                implies (#[trigger] schema.statuses@[i])@ != (#[trigger] schema.statuses@[j])@ by {
                crate::text::lemma_seq_lt_irreflexive(schema.statuses@[i]@);
            }
        }
    }
    let mut r: Vec<&str> = Vec::new();
    for i in 0..schema.statuses.len()
        invariant
            r.len() == i,
            forall|j: int| 0 <= j < i ==> (#[trigger] r@[j])@ == schema.statuses@[j]@,
    {
        r.push(schema.statuses[i].as_str());
    }
    r
}

/// The type named `t` resolves to a block type.
pub open spec fn block_type_named(s: ProjectSchema, t: Seq<char>) -> bool {
    match resolved_type(s, t) {
        Some(c) => has_key(s.block_types@, c),
        None => false,
    }
}

/// Checks if `tname` resolves to a block type concept.
pub fn is_block_type(schema: &ProjectSchema, tname: &str) -> (r: bool)
    ensures
        r == block_type_named(*schema, tname@),
{
    match resolve_type(schema, tname) {
        Some(c) => contains_key(&schema.block_types, c),
        None => false,
    }
}

/// The entry is a block type with at least one marker.
pub open spec fn has_markers() -> spec_fn((String, BlockTypeDef)) -> bool {
    |e: (String, BlockTypeDef)| e.1.markers.len() > 0
}

/// The task block type: the block type with markers whose name comes first.
pub open spec fn task_block_index(s: ProjectSchema) -> Option<int> {
    first_index(s.block_types@, has_markers())
}

/// Returns the first block type (in name order) that has a non-empty marker
/// mapping, with that mapping, or None if no such block type exists.
pub fn canonical_task_block_type<'a>(schema: &'a ProjectSchema) -> (r: Option<(&'a str, &'a Vec<(String, String)>)>)
    ensures
        match task_block_index(*schema) {
            Some(i) => r matches Some((n, m)) && n@ == schema.block_types@[i].0@ && *m == schema.block_types@[i].1.markers,
            None => r is None,
        },
{
    let mut i: usize = 0;
    while i < schema.block_types.len()
        invariant
            i <= schema.block_types.len(),
            forall|j: int| 0 <= j < i ==> !has_markers()(#[trigger] schema.block_types@[j]),
        decreases schema.block_types.len() - i,
    {
        if schema.block_types[i].1.markers.len() > 0 {
            proof {
                assert(is_first(schema.block_types@, has_markers(), i as int));
                lemma_first_index(schema.block_types@, has_markers(), i as int);
            }
            return Some((schema.block_types[i].0.as_str(), &schema.block_types[i].1.markers));
        }
        i = i + 1;
    }
    None
}


// ─── Validation ───────────────────────────────────────────────────────────────

/// The registry label of a page type name.
pub open spec fn page_label(n: Seq<char>) -> Seq<char> {
    "pageType '"@ + n + "'"@
}

/// The registry label of a block type name.
pub open spec fn block_label(n: Seq<char>) -> Seq<char> {
    "blockType '"@ + n + "'"@
}

/// The registry label of an alias of the page type `n`.
pub open spec fn alias_label(n: Seq<char>) -> Seq<char> {
    "alias of pageType '"@ + n + "'"@
}

/// A name registry: names with the labels they were registered under.
pub type Registry = Seq<(Seq<char>, Seq<char>)>;

/// The entry registers the name `n`.
pub open spec fn names(n: Seq<char>) -> spec_fn((Seq<char>, Seq<char>)) -> bool {
    |e: (Seq<char>, Seq<char>)| e.0 == n
}

/// A registration step: the name, its label, and whether the name must not
/// be registered already.
pub type RegStep = (Seq<char>, Seq<char>, bool);

/// Runs registration steps over a registry: the first checked step whose
/// name is already registered is a collision with the label it was
/// registered under; otherwise every name is registered in turn.
pub open spec fn run_steps(steps: Seq<RegStep>, reg: Registry) -> (Option<SchemaErrorView>, Registry)
    decreases steps.len(),
{
    if steps.len() == 0 {
        (None, reg)
    } else {
        let st = steps[0];
        match first_index(reg, names(st.0)) {
            Some(k) if st.2 => (Some(SchemaErrorView::AliasCollision { alias_value: st.0, collides_with: reg[k].1 }), reg),
            _ => run_steps(steps.drop_first(), reg.push((st.0, st.1))),
        }
    }
}

/// The registration of the canonical names: every page type (in name order)
/// unchecked, then every block type (in name order) checked.
pub open spec fn canonical_steps(s: ProjectSchema) -> Seq<RegStep> {
    Seq::new(s.page_types.len() as nat, |i: int| (s.page_types@[i].0@, page_label(s.page_types@[i].0@), false))
        + Seq::new(s.block_types.len() as nat, |i: int| (s.block_types@[i].0@, block_label(s.block_types@[i].0@), true))
}

/// The registration of the aliases of one page type, in sorted order.
pub open spec fn alias_steps(p: (String, PageTypeDef)) -> Seq<RegStep> {
    let sorted = views(p.1.aliases@).sort_by(seq_leq());
    Seq::new(sorted.len(), |i: int| (sorted[i], alias_label(p.0@), true))
}

/// Registers the aliases of each page type in turn.
pub open spec fn run_alias_pages(pages: Seq<(String, PageTypeDef)>, reg: Registry) -> (Option<SchemaErrorView>, Registry)
    decreases pages.len(),
{
    if pages.len() == 0 {
        (None, reg)
    } else {
        let (e, reg1) = run_steps(alias_steps(pages[0]), reg);
        if e is Some {
            (e, reg1)
        } else {
            run_alias_pages(pages.drop_first(), reg1)
        }
    }
}

/// The first name collision among canonical names and aliases.
pub open spec fn registration_error(s: ProjectSchema) -> Option<SchemaErrorView> {
    let (e1, reg1) = run_steps(canonical_steps(s), Seq::empty());
    if e1 is Some {
        e1
    } else {
        run_alias_pages(s.page_types@, reg1).0
    }
}

/// The string is not the name of a defined property.
pub open spec fn undefined_property(s: ProjectSchema) -> spec_fn(String) -> bool {
    |u: String| !has_key(s.properties@, u@)
}

/// The string is not the name of a defined status.
pub open spec fn undefined_status(s: ProjectSchema) -> spec_fn(String) -> bool {
    |u: String| !holds(s.statuses@, u@)
}

/// A failed reference check.
pub open spec fn ref_failure(rule: Seq<char>, detail: Seq<char>) -> SchemaErrorView {
    SchemaErrorView::ValidationFailed { rule, detail }
}

/// The first dangling reference of the given page types: for each in turn,
/// its first used property that is not defined, then its first allowed
/// status that is not defined.
pub open spec fn page_ref_error(s: ProjectSchema, pages: Seq<(String, PageTypeDef)>) -> Option<SchemaErrorView>
    decreases pages.len(),
{
    if pages.len() == 0 {
        None
    } else {
        let p = pages[0];
        match first_index(p.1.uses@, undefined_property(s)) {
            Some(j) => Some(ref_failure("undefined_property_ref"@,
                "pageType '"@ + p.0@ + "' uses undefined property '"@ + p.1.uses@[j]@ + "'"@)),
            None => match first_index(p.1.allowed_statuses@, undefined_status(s)) {
                Some(j) => Some(ref_failure("undefined_status_ref"@,
                    "pageType '"@ + p.0@ + "' allowedStatuses references undefined status '"@ + p.1.allowed_statuses@[j]@ + "'"@)),
                None => page_ref_error(s, pages.drop_first()),
            },
        }
    }
}

/// The first property used by one of the given block types that is not
/// defined.
pub open spec fn block_ref_error(s: ProjectSchema, blocks: Seq<(String, BlockTypeDef)>) -> Option<SchemaErrorView>
    decreases blocks.len(),
{
    if blocks.len() == 0 {
        None
    } else {
        let b = blocks[0];
        match first_index(b.1.uses@, undefined_property(s)) {
            Some(j) => Some(ref_failure("undefined_property_ref"@,
                "blockType '"@ + b.0@ + "' uses undefined property '"@ + b.1.uses@[j]@ + "'"@)),
            None => block_ref_error(s, blocks.drop_first()),
        }
    }
}

/// The renderer entry names a relation the vocabulary does not define.
pub open spec fn undefined_relation_entry(s: ProjectSchema) -> spec_fn((String, RelationLabels)) -> bool {
    |e: (String, RelationLabels)| !has_key(s.relations@, e.0@)
}

/// The renderer entry names a property the vocabulary does not define.
pub open spec fn undefined_property_entry(s: ProjectSchema) -> spec_fn((String, String)) -> bool {
    |e: (String, String)| !has_key(s.properties@, e.0@)
}

/// The first renderer mapping that names an undefined relation, then the
/// first that names an undefined property.
pub open spec fn renderer_ref_error(s: ProjectSchema) -> Option<SchemaErrorView> {
    match first_index(s.renderers.logseq.relations@, undefined_relation_entry(s)) {
        Some(j) => Some(ref_failure("undefined_relation_ref"@,
            "renderers.logseq.relations references undefined relation '"@ + s.renderers.logseq.relations@[j].0@ + "'"@)),
        None => match first_index(s.renderers.logseq.properties@, undefined_property_entry(s)) {
            Some(j) => Some(ref_failure("undefined_property_ref"@,
                "renderers.logseq.properties references undefined property '"@ + s.renderers.logseq.properties@[j].0@ + "'"@)),
            None => None,
        },
    }
}

/// The first violation of the vocabulary's structural rules, in the order
/// they are checked: name collisions, page type references, block type
/// references, renderer references.
pub open spec fn first_violation(s: ProjectSchema) -> Option<SchemaErrorView> {
    match registration_error(s) {
        Some(e) => Some(e),
        None => match page_ref_error(s, s.page_types@) {
            Some(e) => Some(e),
            None => match block_ref_error(s, s.block_types@) {
                Some(e) => Some(e),
                None => renderer_ref_error(s),
            },
        },
    }
}


/// The view of an exec registry.
pub open spec fn regv(r: Seq<(String, String)>) -> Registry {
    r.map_values(|e: (String, String)| (e.0@, e.1@))
}

/// The view of exec registration steps.
pub open spec fn stepsv(r: Seq<(String, String, bool)>) -> Seq<RegStep> {
    r.map_values(|e: (String, String, bool)| (e.0@, e.1@, e.2))
}

fn reg_find(reg: &Vec<(String, String)>, n: &str) -> (r: Option<usize>)
    ensures
        r matches Some(k) ==> k < reg.len() && first_index(regv(reg@), names(n@)) == Some(k as int),
        r is None ==> first_index(regv(reg@), names(n@)) is None,
{
    let mut i: usize = 0;
    while i < reg.len()
        invariant
            i <= reg.len(),
            forall|j: int| 0 <= j < i ==> !names(n@)(#[trigger] regv(reg@)[j]),
        decreases reg.len() - i,
    {
        if str_eq(reg[i].0.as_str(), n) {
            proof {
                assert(is_first(regv(reg@), names(n@), i as int));
                lemma_first_index(regv(reg@), names(n@), i as int);
            }
            return Some(i);
        }
        i = i + 1;
    }
    None
}

/// Runs registration steps, registering names in `reg` until a collision.
fn run_exec_steps(steps: &Vec<(String, String, bool)>, reg: &mut Vec<(String, String)>) -> (r: Option<SchemaError>)
    ensures
        r matches Some(e) ==> run_steps(stepsv(steps@), regv(old(reg)@)).0 == Some(e@),
        r is None ==> run_steps(stepsv(steps@), regv(old(reg)@)) == (None::<SchemaErrorView>, regv(final(reg)@)),
{
    let ghost all = stepsv(steps@);
    let ghost reg0 = regv(reg@);
    proof { assert(all.subrange(0, all.len() as int) =~= all); }
    let mut i: usize = 0;
    while i < steps.len()
        invariant
            i <= steps.len(),
            all == stepsv(steps@),
            reg0 == regv(old(reg)@),
            run_steps(all, reg0) == run_steps(all.subrange(i as int, all.len() as int), regv(reg@)),
        decreases steps.len() - i,
    {
        let ghost rest = all.subrange(i as int, all.len() as int);
        proof {
            assert(rest[0] == all[i as int]);
            assert(rest.drop_first() =~= all.subrange(i + 1, all.len() as int));
        }
        let found = reg_find(reg, steps[i].0.as_str());
        match found {
            Some(k) => {
                if steps[i].2 {
                    let e = SchemaError::AliasCollision {
                        alias_value: steps[i].0.clone(),
                        collides_with: reg[k].1.clone(),
                    };
                    proof {
                        assert(regv(reg@)[k as int].1 == reg@[k as int].1@);
                        assert(run_steps(rest, regv(reg@)).0 == Some(e@));
                    }
                    return Some(e);
                }
            },
            None => {},
        }
        let ghost before = regv(reg@);
        reg.push((steps[i].0.clone(), steps[i].1.clone()));
        proof {
            assert(regv(reg@) =~= before.push((all[i as int].0, all[i as int].1)));
        }
        i = i + 1;
    }
    proof {
        assert(all.subrange(i as int, all.len() as int) =~= Seq::<RegStep>::empty());
    }
    None
}

/// The registration steps of the canonical names.
fn canonical_exec_steps(s: &ProjectSchema) -> (r: Vec<(String, String, bool)>)
    ensures
        stepsv(r@) == canonical_steps(*s),
{
    let ghost c = canonical_steps(*s);
    let mut r: Vec<(String, String, bool)> = Vec::new();
    let np = s.page_types.len();
    for i in 0..np
        invariant
            np == s.page_types.len(),
            c == canonical_steps(*s),
            stepsv(r@) =~= c.subrange(0, i as int),
    {
        let name = s.page_types[i].0.as_str();
        let ghost before = stepsv(r@);
        r.push((name.to_owned(), cat3("pageType '", name, "'"), false));
        proof {
            assert(stepsv(r@) =~= before.push(c[i as int]));
            assert(c.subrange(0, i + 1) =~= c.subrange(0, i as int).push(c[i as int]));
        }
    }
    for i in 0..s.block_types.len()
        invariant
            np == s.page_types.len(),
            c == canonical_steps(*s),
            stepsv(r@) =~= c.subrange(0, np + i),
    {
        let name = s.block_types[i].0.as_str();
        let ghost before = stepsv(r@);
        r.push((name.to_owned(), cat3("blockType '", name, "'"), true));
        proof {
            assert(c[np + i] == (s.block_types@[i as int].0@, block_label(s.block_types@[i as int].0@), true));
            assert(stepsv(r@) =~= before.push(c[np + i]));
            assert(c.subrange(0, np + i + 1) =~= c.subrange(0, np + i).push(c[np + i]));
        }
    }
    proof { assert(c.subrange(0, c.len() as int) =~= c); }
    r
}

/// The registration steps of the aliases of one page type.
fn alias_exec_steps(p: &(String, PageTypeDef)) -> (r: Vec<(String, String, bool)>)
    ensures
        stepsv(r@) == alias_steps(*p),
{
    let ghost a = alias_steps(*p);
    let sorted = sort_strings(&p.1.aliases);
    let mut r: Vec<(String, String, bool)> = Vec::new();
    for i in 0..sorted.len()
        invariant
            a == alias_steps(*p),
            a.len() == sorted.len(),
            views(sorted@) == views(p.1.aliases@).sort_by(seq_leq()),
            stepsv(r@) =~= a.subrange(0, i as int),
    {
        let ghost before = stepsv(r@);
        r.push((sorted[i].clone(), cat3("alias of pageType '", p.0.as_str(), "'"), true));
        proof {
            assert(views(sorted@)[i as int] == sorted@[i as int]@);
            assert(stepsv(r@) =~= before.push(a[i as int]));
            assert(a.subrange(0, i + 1) =~= a.subrange(0, i as int).push(a[i as int]));
        }
    }
    proof { assert(a.subrange(0, a.len() as int) =~= a); }
    r
}

/// The first name collision, with the registry of all names when none.
fn check_registrations(s: &ProjectSchema) -> (r: Option<SchemaError>)
    ensures
        r matches Some(e) ==> registration_error(*s) == Some(e@),
        r is None ==> registration_error(*s) is None,
{
    let mut reg: Vec<(String, String)> = Vec::new();
    let steps = canonical_exec_steps(s);
    proof { assert(regv(reg@) =~= Seq::<(Seq<char>, Seq<char>)>::empty()); }
    match run_exec_steps(&steps, &mut reg) {
        Some(e) => {
            assert(run_steps(canonical_steps(*s), Seq::empty()).0 == Some(e@));
            return Some(e);
        },
        None => {},
    }
    let ghost pages = s.page_types@;
    let ghost reg1 = regv(reg@);
    assert(run_steps(canonical_steps(*s), Seq::empty()) == (None::<SchemaErrorView>, reg1));
    assert(pages.subrange(0, pages.len() as int) =~= pages);
    let mut i: usize = 0;
    while i < s.page_types.len()
        invariant
            i <= s.page_types.len(),
            pages == s.page_types@,
            run_steps(canonical_steps(*s), Seq::empty()) == (None::<SchemaErrorView>, reg1),
            run_alias_pages(pages, reg1) == run_alias_pages(pages.subrange(i as int, pages.len() as int), regv(reg@)),
        decreases s.page_types.len() - i,
    {
        let ghost rest = pages.subrange(i as int, pages.len() as int);
        proof {
            assert(rest[0] == pages[i as int]);
            assert(rest.drop_first() =~= pages.subrange(i + 1, pages.len() as int));
        }
        let steps = alias_exec_steps(&s.page_types[i]);
        let ghost reg_before = regv(reg@);
        match run_exec_steps(&steps, &mut reg) {
            Some(e) => {
                assert(run_steps(alias_steps(rest[0]), reg_before).0 == Some(e@));
                assert(run_alias_pages(rest, reg_before).0 == Some(e@));
                return Some(e);
            },
            None => {},
        }
        i = i + 1;
    }
    proof {
        assert(pages.subrange(i as int, pages.len() as int) =~= Seq::<(String, PageTypeDef)>::empty());
    }
    None
}


fn first_undefined_property(s: &ProjectSchema, list: &Vec<String>) -> (r: Option<usize>)
    ensures
        r matches Some(j) ==> j < list.len() && first_index(list@, undefined_property(*s)) == Some(j as int),
        r is None ==> first_index(list@, undefined_property(*s)) is None,
{
    let mut i: usize = 0;
    while i < list.len()
        invariant
            i <= list.len(),
            forall|j: int| 0 <= j < i ==> !undefined_property(*s)(#[trigger] list@[j]),
        decreases list.len() - i,
    {
        if !contains_key(&s.properties, list[i].as_str()) {
            proof {
                assert(is_first(list@, undefined_property(*s), i as int));
                lemma_first_index(list@, undefined_property(*s), i as int);
            }
            return Some(i);
        }
        i = i + 1;
    }
    None
}

fn first_undefined_status(s: &ProjectSchema, list: &Vec<String>) -> (r: Option<usize>)
    ensures
        r matches Some(j) ==> j < list.len() && first_index(list@, undefined_status(*s)) == Some(j as int),
        r is None ==> first_index(list@, undefined_status(*s)) is None,
{
    let mut i: usize = 0;
    while i < list.len()
        invariant
            i <= list.len(),
            forall|j: int| 0 <= j < i ==> !undefined_status(*s)(#[trigger] list@[j]),
        decreases list.len() - i,
    {
        if !contains_str(&s.statuses, list[i].as_str()) {
            proof {
                assert(is_first(list@, undefined_status(*s), i as int));
                lemma_first_index(list@, undefined_status(*s), i as int);
            }
            return Some(i);
        }
        i = i + 1;
    }
    None
}

fn check_page_refs(s: &ProjectSchema) -> (r: Option<SchemaError>)
    ensures
        r matches Some(e) ==> page_ref_error(*s, s.page_types@) == Some(e@),
        r is None ==> page_ref_error(*s, s.page_types@) is None,
{
    let ghost pages = s.page_types@;
    proof { assert(pages.subrange(0, pages.len() as int) =~= pages); }
    let mut i: usize = 0;
    while i < s.page_types.len()
        invariant
            i <= s.page_types.len(),
            pages == s.page_types@,
            page_ref_error(*s, pages) == page_ref_error(*s, pages.subrange(i as int, pages.len() as int)),
        decreases s.page_types.len() - i,
    {
        let ghost rest = pages.subrange(i as int, pages.len() as int);
        proof {
            assert(rest[0] == pages[i as int]);
            assert(rest.drop_first() =~= pages.subrange(i + 1, pages.len() as int));
        }
        let name = s.page_types[i].0.as_str();
        let def = &s.page_types[i].1;
        match first_undefined_property(s, &def.uses) {
            Some(j) => {
                let mut d = cat3("pageType '", name, "' uses undefined property '");
                d.append(def.uses[j].as_str());
                d.append("'");
                return Some(SchemaError::ValidationFailed { rule: "undefined_property_ref".to_owned(), detail: d });
            },
            None => {},
        }
        match first_undefined_status(s, &def.allowed_statuses) {
            Some(j) => {
                let mut d = cat3("pageType '", name, "' allowedStatuses references undefined status '");
                d.append(def.allowed_statuses[j].as_str());
                d.append("'");
                return Some(SchemaError::ValidationFailed { rule: "undefined_status_ref".to_owned(), detail: d });
            },
            None => {},
        }
        i = i + 1;
    }
    proof { assert(pages.subrange(i as int, pages.len() as int) =~= Seq::<(String, PageTypeDef)>::empty()); }
    None
}

fn check_block_refs(s: &ProjectSchema) -> (r: Option<SchemaError>)
    ensures
        r matches Some(e) ==> block_ref_error(*s, s.block_types@) == Some(e@),
        r is None ==> block_ref_error(*s, s.block_types@) is None,
{
    let ghost blocks = s.block_types@;
    proof { assert(blocks.subrange(0, blocks.len() as int) =~= blocks); }
    let mut i: usize = 0;
    while i < s.block_types.len()
        invariant
            i <= s.block_types.len(),
            blocks == s.block_types@,
            block_ref_error(*s, blocks) == block_ref_error(*s, blocks.subrange(i as int, blocks.len() as int)),
        decreases s.block_types.len() - i,
    {
        let ghost rest = blocks.subrange(i as int, blocks.len() as int);
        proof {
            assert(rest[0] == blocks[i as int]);
            assert(rest.drop_first() =~= blocks.subrange(i + 1, blocks.len() as int));
        }
        let name = s.block_types[i].0.as_str();
        let def = &s.block_types[i].1;
        match first_undefined_property(s, &def.uses) {
            Some(j) => {
                let mut d = cat3("blockType '", name, "' uses undefined property '");
                d.append(def.uses[j].as_str());
                d.append("'");
                return Some(SchemaError::ValidationFailed { rule: "undefined_property_ref".to_owned(), detail: d });
            },
            None => {},
        }
        i = i + 1;
    }
    proof { assert(blocks.subrange(i as int, blocks.len() as int) =~= Seq::<(String, BlockTypeDef)>::empty()); }
    None
}

fn check_renderer_refs(s: &ProjectSchema) -> (r: Option<SchemaError>)
    ensures
        r matches Some(e) ==> renderer_ref_error(*s) == Some(e@),
        r is None ==> renderer_ref_error(*s) is None,
{
    let rels = &s.renderers.logseq.relations;
    let mut i: usize = 0;
    while i < rels.len()
        invariant
            i <= rels.len(),
            *rels == s.renderers.logseq.relations,
            forall|j: int| 0 <= j < i ==> !undefined_relation_entry(*s)(#[trigger] rels@[j]),
        decreases rels.len() - i,
    {
        if !contains_key(&s.relations, rels[i].0.as_str()) {
            proof {
                assert(is_first(rels@, undefined_relation_entry(*s), i as int));
                lemma_first_index(rels@, undefined_relation_entry(*s), i as int);
            }
            let d = cat3("renderers.logseq.relations references undefined relation '", rels[i].0.as_str(), "'");
            return Some(SchemaError::ValidationFailed { rule: "undefined_relation_ref".to_owned(), detail: d });
        }
        i = i + 1;
    }
    let props = &s.renderers.logseq.properties;
    let mut i: usize = 0;
    while i < props.len()
        invariant
            i <= props.len(),
            *props == s.renderers.logseq.properties,
            first_index(s.renderers.logseq.relations@, undefined_relation_entry(*s)) is None,
            forall|j: int| 0 <= j < i ==> !undefined_property_entry(*s)(#[trigger] props@[j]),
        decreases props.len() - i,
    {
        if !contains_key(&s.properties, props[i].0.as_str()) {
            proof {
                assert(is_first(props@, undefined_property_entry(*s), i as int));
                lemma_first_index(props@, undefined_property_entry(*s), i as int);
            }
            let d = cat3("renderers.logseq.properties references undefined property '", props[i].0.as_str(), "'");
            return Some(SchemaError::ValidationFailed { rule: "undefined_property_ref".to_owned(), detail: d });
        }
        i = i + 1;
    }
    None
}

/// Validates the structural rules of the vocabulary and returns the first
/// violation found.
///
/// Collisions are detected in two phases: first every canonical name is
/// registered (page types in name order, then block types in name order,
/// each block type checked against the names before it), then each page
/// type's aliases, sorted, are checked against everything registered so far
/// and registered in turn. References are checked afterwards: the
/// properties and statuses page types use, the properties block types use,
/// then the relations and properties the Logseq renderer names.
pub fn validate(schema: &ProjectSchema) -> (r: Result<(), SchemaError>)
    requires
        schema.wf(),
    ensures
        r matches Err(e) ==> first_violation(*schema) == Some(e@),
        r is Ok ==> first_violation(*schema) is None,
{
    match check_registrations(schema) {
        Some(e) => return Err(e),
        None => {},
    }
    match check_page_refs(schema) {
        Some(e) => return Err(e),
        None => {},
    }
    match check_block_refs(schema) {
        Some(e) => return Err(e),
        None => {},
    }
    match check_renderer_refs(schema) {
        Some(e) => return Err(e),
        None => {},
    }
    Ok(())
}


// ─── Event emission ───────────────────────────────────────────────────────────

/// The module name recorded on vocabulary events.
pub open spec fn schema_module() -> Seq<char> {
    "project_schema"@
}

/// `ev` is the failure event recorded for `e` under `cid`.
pub open spec fn is_failure_event(ev: OutEvent, e: SchemaErrorView, cid: Seq<char>) -> bool {
    &&& ev.event_type@ == error_event_type(e)
    &&& ev.source_module@ == schema_module()
    &&& ev.correlation_id@ == cid
    &&& payload_of_error(e, ev.payload@)
}

/// Records the failure event for a `SchemaError` (appended to `outbox`).
pub fn emit_schema_failure(outbox: &mut Vec<OutEvent>, error: &SchemaError, correlation_id: &str)
    ensures
        final(outbox)@.len() == old(outbox)@.len() + 1,
        final(outbox)@.subrange(0, old(outbox)@.len() as int) == old(outbox)@,
        is_failure_event(final(outbox)@.last(), error@, correlation_id@),
{
    let ev = out_event(error.event_type(), "project_schema", correlation_id, error.to_payload());
    outbox.push(ev);
    proof { assert(outbox@.subrange(0, old(outbox)@.len() as int) =~= old(outbox)@); }
}

/// Records `SchemaTypeUnknown` (observational) when an item type is not in
/// the schema (appended to `outbox`).
pub fn emit_type_unknown(outbox: &mut Vec<OutEvent>, item_id: &str, unknown_type: &str, correlation_id: &str)
    ensures
        final(outbox)@.len() == old(outbox)@.len() + 1,
        final(outbox)@.subrange(0, old(outbox)@.len() as int) == old(outbox)@,
        crate::payload::ev_is(final(outbox)@.last(), "SchemaTypeUnknown"@, schema_module(), correlation_id@,
            seq![("item_id"@, crate::payload::JView::Str(item_id@)), ("unknown_type"@, crate::payload::JView::Str(unknown_type@))]),
{
    crate::payload::emit(outbox, "SchemaTypeUnknown", "project_schema", correlation_id,
        crate::payload::payload2("item_id", crate::payload::js(item_id), "unknown_type", crate::payload::js(unknown_type)));
}

/// Accepts a loaded vocabulary if it validates. On a load or validation
/// failure the failure event is recorded and `None` returned.
pub fn check_loaded_schema(loaded: Result<ProjectSchema, SchemaError>, outbox: &mut Vec<OutEvent>, correlation_id: &str) -> (r: Option<ProjectSchema>)
    requires
        loaded matches Ok(s) ==> s.wf(),
    ensures
        match loaded {
            Err(e) => r is None && final(outbox)@.len() == old(outbox)@.len() + 1
                && is_failure_event(final(outbox)@.last(), e@, correlation_id@),
            Ok(s) => match first_violation(s) {
                Some(e) => r is None && final(outbox)@.len() == old(outbox)@.len() + 1
                    && is_failure_event(final(outbox)@.last(), e, correlation_id@),
                None => r == Some(s) && final(outbox)@ == old(outbox)@,
            },
        },
        final(outbox)@.subrange(0, old(outbox)@.len() as int) == old(outbox)@,
{
    match loaded {
        Err(e) => {
            emit_schema_failure(outbox, &e, correlation_id);
            None
        },
        Ok(s) => match validate(&s) {
            Err(e) => {
                emit_schema_failure(outbox, &e, correlation_id);
                None
            },
            Ok(()) => {
                proof { assert(outbox@.subrange(0, outbox@.len() as int) =~= outbox@); }
                Some(s)
            },
        },
    }
}

// ─── Aliases ──────────────────────────────────────────────────────────────────

/// The names and labels a run of steps registers.
pub open spec fn step_entries(steps: Seq<RegStep>) -> Registry {
    steps.map_values(|st: RegStep| (st.0, st.1))
}

/// A run without collision registers every step in turn, and the name of
/// each checked step was not registered before it.
proof fn lemma_run_steps_ok(steps: Seq<RegStep>, reg: Registry)
    requires
        run_steps(steps, reg).0 is None,
    ensures
        run_steps(steps, reg).1 == reg + step_entries(steps),
        forall|k: int| 0 <= k < steps.len() && (#[trigger] steps[k]).2
            ==> !any_of(reg + step_entries(steps.take(k)), names(steps[k].0)),
    decreases steps.len(),
{
    if steps.len() == 0 {
        assert(reg + step_entries(steps) =~= reg);
    } else {
        let st = steps[0];
        let rest = steps.drop_first();
        let reg2 = reg.push((st.0, st.1));
        assert(run_steps(steps, reg) == run_steps(rest, reg2));
        lemma_run_steps_ok(rest, reg2);
        assert(reg2 + step_entries(rest) =~= reg + step_entries(steps));
        assert forall|k: int| 0 <= k < steps.len() && (#[trigger] steps[k]).2
            implies !any_of(reg + step_entries(steps.take(k)), names(steps[k].0)) by {
            if k == 0 {
                assert(reg + step_entries(steps.take(0)) =~= reg);
            } else {
                assert(rest[k - 1] == steps[k]);
                assert(reg2 + step_entries(rest.take(k - 1)) =~= reg + step_entries(steps.take(k)));
            }
        }
    }
}

/// A name a registry extends is registered in the extension too.
proof fn lemma_any_of_prefix(reg: Registry, more: Registry, n: Seq<char>)
    requires
        any_of(reg, names(n)),
    ensures
        any_of(reg + more, names(n)),
{
    let m = choose|m: int| 0 <= m < reg.len() && #[trigger] names(n)(reg[m]);
    assert((reg + more)[m] == reg[m]);
}

/// A name listed among the aliases of a page type is among its sorted
/// aliases.
proof fn lemma_alias_sorted(p: (String, PageTypeDef), a: Seq<char>)
    requires
        holds(p.1.aliases@, a),
    ensures
        views(p.1.aliases@).sort_by(seq_leq()).contains(a),
{
    let v = views(p.1.aliases@);
    let idx = choose|idx: int| 0 <= idx < p.1.aliases@.len() && (#[trigger] p.1.aliases@[idx])@ == a;
    assert(v[idx] == a);
    assert(v.contains(a));
    crate::text::lemma_seq_leq_total_ordering();
    v.lemma_sort_by_ensures(seq_leq());
    v.to_multiset_ensures();
    v.sort_by(seq_leq()).to_multiset_ensures();
    assert(v.to_multiset().count(a) > 0);
    assert(v.sort_by(seq_leq()).to_multiset().count(a) > 0);
}

/// After alias registration without collision, an alias of a page type was
/// registered neither before the aliases nor as an alias of an earlier page
/// type.
proof fn lemma_alias_pages_ok(pages: Seq<(String, PageTypeDef)>, reg: Registry, i: int, a: Seq<char>)
    requires
        run_alias_pages(pages, reg).0 is None,
        0 <= i < pages.len(),
        holds(pages[i].1.aliases@, a),
    ensures
        !any_of(reg, names(a)),
        forall|j: int| 0 <= j < i ==> !holds(#[trigger] pages[j].1.aliases@, a),
    decreases pages.len(),
{
    let steps = alias_steps(pages[0]);
    let sorted = views(pages[0].1.aliases@).sort_by(seq_leq());
    assert(run_steps(steps, reg).0 is None);
    lemma_run_steps_ok(steps, reg);
    let reg1 = reg + step_entries(steps);
    if i == 0 {
        lemma_alias_sorted(pages[0], a);
        let k = choose|k: int| 0 <= k < sorted.len() && sorted[k] == a;
        assert(steps[k].2 && steps[k].0 == a);
        if any_of(reg, names(a)) {
            lemma_any_of_prefix(reg, step_entries(steps.take(k)), a);
        }
    } else {
        let rest = pages.drop_first();
        assert(run_alias_pages(pages, reg) == run_alias_pages(rest, reg1));
        assert(rest[i - 1] == pages[i]);
        lemma_alias_pages_ok(rest, reg1, i - 1, a);
        if any_of(reg, names(a)) {
            lemma_any_of_prefix(reg, step_entries(steps), a);
        }
        if holds(pages[0].1.aliases@, a) {
            lemma_alias_sorted(pages[0], a);
            let k = choose|k: int| 0 <= k < sorted.len() && sorted[k] == a;
            assert(names(a)(reg1[reg.len() + k]));
        }
        assert forall|j: int| 0 <= j < i implies !holds(#[trigger] pages[j].1.aliases@, a) by {
            if j > 0 {
                assert(rest[j - 1] == pages[j]);
            }
        }
    }
}

/// An alias keeps what is stored under it visible: in a vocabulary that
/// validates, a name listed among the aliases of a page type resolves to
/// that page type.
pub proof fn law_alias_resolves(s: ProjectSchema, i: int, a: Seq<char>)
    requires
        first_violation(s) is None,
        0 <= i < s.page_types.len(),
        holds(s.page_types@[i].1.aliases@, a),
    ensures
        resolved_type(s, a) == Some(s.page_types@[i].0@),
{
    let steps = canonical_steps(s);
    assert(run_steps(steps, Seq::empty()).0 is None);
    lemma_run_steps_ok(steps, Seq::empty());
    let reg1 = Seq::<(Seq<char>, Seq<char>)>::empty() + step_entries(steps);
    lemma_alias_pages_ok(s.page_types@, reg1, i, a);
    let np = s.page_types.len() as int;
    if has_key(s.page_types@, a) {
        let m = choose|m: int| 0 <= m < s.page_types@.len() && #[trigger] key_is::<PageTypeDef>(a)(s.page_types@[m]);
        assert(names(a)(reg1[m]));
    }
    if has_key(s.block_types@, a) {
        let m = choose|m: int| 0 <= m < s.block_types@.len() && #[trigger] key_is::<BlockTypeDef>(a)(s.block_types@[m]);
        assert(names(a)(reg1[np + m]));
    }
    assert(is_first(s.page_types@, alias_of(a), i));
    lemma_first_index(s.page_types@, alias_of(a), i);
}

// ─── Validation and the order of the maps ─────────────────────────────────────

/// Two lists kept in strictly increasing order of their keys that hold the
/// same entries are the same list.
proof fn lemma_keyed_unique<V>(a: Seq<(String, V)>, b: Seq<(String, V)>, ka: Seq<Seq<char>>, kb: Seq<Seq<char>>)
    requires
        keys_sorted(a),
        keys_sorted(b),
        a.to_set() == b.to_set(),
        ka == a.map_values(|e: (String, V)| e.0@),
        kb == b.map_values(|e: (String, V)| e.0@),
    ensures
        a == b,
{
    assert(crate::text::strictly_sorted(ka)) by {
        assert forall|i: int, j: int| 0 <= i < j < ka.len() implies seq_lt(#[trigger] ka[i], #[trigger] ka[j]) by {
            assert(seq_lt(a[i].0@, a[j].0@));
        }
    }
    assert(crate::text::strictly_sorted(kb)) by {
        assert forall|i: int, j: int| 0 <= i < j < kb.len() implies seq_lt(#[trigger] kb[i], #[trigger] kb[j]) by {
            assert(seq_lt(b[i].0@, b[j].0@));
        }
    }
    assert(ka.to_set() =~= kb.to_set()) by {
        assert forall|x: Seq<char>| ka.to_set().contains(x) implies kb.to_set().contains(x) by {
            let i = choose|i: int| 0 <= i < ka.len() && ka[i] == x;
            assert(a.to_set().contains(a[i]));
            let j = choose|j: int| 0 <= j < b.len() && b[j] == a[i];
            assert(kb[j] == x);
        }
        assert forall|x: Seq<char>| kb.to_set().contains(x) implies ka.to_set().contains(x) by {
            let j = choose|j: int| 0 <= j < kb.len() && kb[j] == x;
            assert(b.to_set().contains(b[j]));
            let i = choose|i: int| 0 <= i < a.len() && a[i] == b[j];
            assert(ka[i] == x);
        }
    }
    crate::text::lemma_strictly_sorted_unique(ka, kb);
    assert forall|i: int| 0 <= i < a.len() implies a[i] == b[i] by {
        assert(a.to_set().contains(a[i]));
        let j = choose|j: int| 0 <= j < b.len() && b[j] == a[i];
        assert(kb[j] == ka[i]);
        crate::text::lemma_seq_lt_irreflexive(ka[i]);
        if i < j {
            assert(seq_lt(ka[i], ka[j]));
        } else if j < i {
            assert(seq_lt(ka[j], ka[i]));
        }
    }
    assert(ka.len() == a.len() && kb.len() == b.len());
    assert(a =~= b);
}

/// Two lists of strings in strictly increasing order that hold the same
/// strings are the same list.
proof fn lemma_names_unique(a: Seq<String>, b: Seq<String>)
    requires
        forall|i: int, j: int| 0 <= i < j < a.len() ==> seq_lt(#[trigger] a[i]@, #[trigger] a[j]@),
        forall|i: int, j: int| 0 <= i < j < b.len() ==> seq_lt(#[trigger] b[i]@, #[trigger] b[j]@),
        a.to_set() == b.to_set(),
    ensures
        a == b,
{
    let ka = views(a);
    let kb = views(b);
    assert(crate::text::strictly_sorted(ka)) by {
        assert forall|i: int, j: int| 0 <= i < j < ka.len() implies seq_lt(#[trigger] ka[i], #[trigger] ka[j]) by {
            assert(seq_lt(a[i]@, a[j]@));
        }
    }
    assert(crate::text::strictly_sorted(kb)) by {
        assert forall|i: int, j: int| 0 <= i < j < kb.len() implies seq_lt(#[trigger] kb[i], #[trigger] kb[j]) by {
            assert(seq_lt(b[i]@, b[j]@));
        }
    }
    assert(ka.to_set() =~= kb.to_set()) by {
        assert forall|x: Seq<char>| ka.to_set().contains(x) implies kb.to_set().contains(x) by {
            let i = choose|i: int| 0 <= i < ka.len() && ka[i] == x;
            assert(a.to_set().contains(a[i]));
            let j = choose|j: int| 0 <= j < b.len() && b[j] == a[i];
            assert(kb[j] == x);
        }
        assert forall|x: Seq<char>| kb.to_set().contains(x) implies ka.to_set().contains(x) by {
            let j = choose|j: int| 0 <= j < kb.len() && kb[j] == x;
            assert(b.to_set().contains(b[j]));
            let i = choose|i: int| 0 <= i < a.len() && a[i] == b[j];
            assert(ka[i] == x);
        }
    }
    crate::text::lemma_strictly_sorted_unique(ka, kb);
    assert forall|i: int| 0 <= i < a.len() implies a[i] == b[i] by {
        assert(a.to_set().contains(a[i]));
        let j = choose|j: int| 0 <= j < b.len() && b[j] == a[i];
        assert(kb[j] == ka[i]);
        crate::text::lemma_seq_lt_irreflexive(ka[i]);
        if i < j {
            assert(seq_lt(ka[i], ka[j]));
        } else if j < i {
            assert(seq_lt(ka[j], ka[i]));
        }
    }
    assert(ka.len() == a.len() && kb.len() == b.len());
    assert(a =~= b);
}

/// The page type references check reads the vocabulary only through its
/// properties and statuses.
proof fn lemma_page_refs_same(s1: ProjectSchema, s2: ProjectSchema, pages: Seq<(String, PageTypeDef)>)
    requires
        s1.properties@ == s2.properties@,
        s1.statuses@ == s2.statuses@,
    ensures
        page_ref_error(s1, pages) == page_ref_error(s2, pages),
    decreases pages.len(),
{
    assert(undefined_property(s1) =~= undefined_property(s2));
    assert(undefined_status(s1) =~= undefined_status(s2));
    if pages.len() > 0 {
        lemma_page_refs_same(s1, s2, pages.drop_first());
    }
}

/// The block type references check reads the vocabulary only through its
/// properties.
proof fn lemma_block_refs_same(s1: ProjectSchema, s2: ProjectSchema, blocks: Seq<(String, BlockTypeDef)>)
    requires
        s1.properties@ == s2.properties@,
    ensures
        block_ref_error(s1, blocks) == block_ref_error(s2, blocks),
    decreases blocks.len(),
{
    assert(undefined_property(s1) =~= undefined_property(s2));
    if blocks.len() > 0 {
        lemma_block_refs_same(s1, s2, blocks.drop_first());
    }
}

/// Validation does not depend on the order the vocabulary's maps were
/// written in: two vocabularies whose maps hold the same entries and whose
/// status lists hold the same names, each kept in key order as they are
/// read, validate alike.
pub proof fn law_validation_ignores_map_order(s1: ProjectSchema, s2: ProjectSchema)
    requires
        s1.wf(),
        s2.wf(),
        s1.properties@.to_set() == s2.properties@.to_set(),
        s1.statuses@.to_set() == s2.statuses@.to_set(),
        s1.page_types@.to_set() == s2.page_types@.to_set(),
        s1.block_types@.to_set() == s2.block_types@.to_set(),
        s1.relations@.to_set() == s2.relations@.to_set(),
        s1.renderers.logseq.relations@.to_set() == s2.renderers.logseq.relations@.to_set(),
        s1.renderers.logseq.properties@.to_set() == s2.renderers.logseq.properties@.to_set(),
    ensures
        first_violation(s1) == first_violation(s2),
{
    lemma_keyed_unique(s1.properties@, s2.properties@, s1.properties@.map_values(|e: (String, PropertyDef)| e.0@),
        s2.properties@.map_values(|e: (String, PropertyDef)| e.0@));
    lemma_names_unique(s1.statuses@, s2.statuses@);
    lemma_keyed_unique(s1.page_types@, s2.page_types@, s1.page_types@.map_values(|e: (String, PageTypeDef)| e.0@),
        s2.page_types@.map_values(|e: (String, PageTypeDef)| e.0@));
    lemma_keyed_unique(s1.block_types@, s2.block_types@, s1.block_types@.map_values(|e: (String, BlockTypeDef)| e.0@),
        s2.block_types@.map_values(|e: (String, BlockTypeDef)| e.0@));
    lemma_keyed_unique(s1.relations@, s2.relations@, s1.relations@.map_values(|e: (String, RelationDef)| e.0@),
        s2.relations@.map_values(|e: (String, RelationDef)| e.0@));
    lemma_keyed_unique(s1.renderers.logseq.relations@, s2.renderers.logseq.relations@,
        s1.renderers.logseq.relations@.map_values(|e: (String, RelationLabels)| e.0@),
        s2.renderers.logseq.relations@.map_values(|e: (String, RelationLabels)| e.0@));
    lemma_keyed_unique(s1.renderers.logseq.properties@, s2.renderers.logseq.properties@,
        s1.renderers.logseq.properties@.map_values(|e: (String, String)| e.0@),
        s2.renderers.logseq.properties@.map_values(|e: (String, String)| e.0@));
    assert(canonical_steps(s1) =~= canonical_steps(s2));
    lemma_page_refs_same(s1, s2, s1.page_types@);
    lemma_block_refs_same(s1, s2, s1.block_types@);
    assert(undefined_relation_entry(s1) =~= undefined_relation_entry(s2));
    assert(undefined_property_entry(s1) =~= undefined_property_entry(s2));
}

/// A run of registration steps fails only on a collision.
proof fn lemma_run_steps_collision(steps: Seq<RegStep>, reg: Registry)
    ensures
        run_steps(steps, reg).0 matches Some(e) ==> e is AliasCollision,
    decreases steps.len(),
{
    if steps.len() > 0 {
        lemma_run_steps_collision(steps.drop_first(), reg.push((steps[0].0, steps[0].1)));
    }
}

/// Registering the aliases of page types fails only on a collision.
proof fn lemma_alias_pages_collision(pages: Seq<(String, PageTypeDef)>, reg: Registry)
    ensures
        run_alias_pages(pages, reg).0 matches Some(e) ==> e is AliasCollision,
    decreases pages.len(),
{
    if pages.len() > 0 {
        lemma_run_steps_collision(alias_steps(pages[0]), reg);
        lemma_alias_pages_collision(pages.drop_first(), run_steps(alias_steps(pages[0]), reg).1);
    }
}

/// A name collision is reported as one: when two names of the vocabulary
/// collide, validation reports that collision, never a dangling
/// reference.
pub proof fn law_collision_is_reported_first(s: ProjectSchema)
    ensures
        registration_error(s) is Some ==> first_violation(s) == registration_error(s)
            && registration_error(s).unwrap() is AliasCollision,
{
    lemma_run_steps_collision(canonical_steps(s), Seq::empty());
    lemma_alias_pages_collision(s.page_types@, run_steps(canonical_steps(s), Seq::empty()).1);
}

} // verus!
