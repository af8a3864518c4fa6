//! Structuring free text into project items: the prompt that describes the
//! vocabulary to the language model, the checks applied to each item it
//! proposes, and the decisions of an extraction and of a folder scan.
use vstd::prelude::*;
use crate::text::{str_eq, str_lt, seq_lt, seq_le, seq_leq, views, join, join_strings, sort_strings, push_char};
use crate::seqs::{holds, lookup, find_key, contains_str, first_index};
use crate::schema::{ProjectSchema, PageTypeDef, resolved_type, resolve_type, block_type_named, is_block_type,
    task_block_index, canonical_task_block_type, opt_str_view};
use crate::record::ov;
use crate::schema::BlockTypeDef;
use crate::slug::{lowercase, str_to_lowercase};
use crate::chars::{chars_of, string_of, trim, trim_bounds, has_prefix, starts_with};
use crate::ontology::{strip_trailing, strip_trailing_in};
use crate::payload::{Json, JView, OutEvent, EventSpec, get, as_array, str_of, pstr_of, jstr, jpstr, jpayload, jarr, jv, pv, jopt_v,
    appended, lemma_appended_none, lemma_appended_push, emit, js, jo, jlist, add_field, payload1, payload2, payload4, payload7,
    ev_is, logs};
use crate::record::{strings_of, or_empty};

verus! {

// ─── Items ────────────────────────────────────────────────────────────────────

/// A work package of the project record, which extracted tasks may be
/// placed under.
pub struct WpRecord {
    pub uuid: String,
    pub description: String,
}

/// An item extracted from text.
pub struct ExtractedItem {
    pub item_id: String,
    pub item_type: String,
    pub description: String,
    pub uncertain: bool,
    pub uncertainty_reason: Option<String>,
    pub proposed_status: Option<String>,
    pub proposed_priority: Option<String>,
    pub parent_item_id: Option<String>,
    pub initial_marker: Option<String>,
}

/// An item as the language model proposes it.
pub struct RawItem {
    pub item_type: String,
    pub description: String,
    pub uncertain: bool,
    pub uncertainty_reason: Option<String>,
    pub proposed_status: Option<String>,
    pub proposed_priority: Option<String>,
    pub parent_item_id: Option<String>,
}

/// An extracted item, as values.
pub ghost struct ExtractedView {
    pub item_id: Seq<char>,
    pub item_type: Seq<char>,
    pub description: Seq<char>,
    pub uncertain: bool,
    pub uncertainty_reason: Option<Seq<char>>,
    pub proposed_status: Option<Seq<char>>,
    pub proposed_priority: Option<Seq<char>>,
    pub parent_item_id: Option<Seq<char>>,
    pub initial_marker: Option<Seq<char>>,
}

/// A proposed item, as values.
pub ghost struct RawView {
    pub item_type: Seq<char>,
    pub description: Seq<char>,
    pub uncertain: bool,
    pub uncertainty_reason: Option<Seq<char>>,
    pub proposed_status: Option<Seq<char>>,
    pub proposed_priority: Option<Seq<char>>,
    pub parent_item_id: Option<Seq<char>>,
}

impl View for ExtractedItem {
    type V = ExtractedView;

    open spec fn view(&self) -> ExtractedView {
        ExtractedView {
            item_id: self.item_id@,
            item_type: self.item_type@,
            description: self.description@,
            uncertain: self.uncertain,
            uncertainty_reason: ov(self.uncertainty_reason),
            proposed_status: ov(self.proposed_status),
            proposed_priority: ov(self.proposed_priority),
            parent_item_id: ov(self.parent_item_id),
            initial_marker: ov(self.initial_marker),
        }
    }
}

impl View for RawItem {
    type V = RawView;

    open spec fn view(&self) -> RawView {
        RawView {
            item_type: self.item_type@,
            description: self.description@,
            uncertain: self.uncertain,
            uncertainty_reason: ov(self.uncertainty_reason),
            proposed_status: ov(self.proposed_status),
            proposed_priority: ov(self.proposed_priority),
            parent_item_id: ov(self.parent_item_id),
        }
    }
}

/// The views of extracted items.
pub open spec fn extracted_view(s: Seq<ExtractedItem>) -> Seq<ExtractedView> {
    s.map_values(|i: ExtractedItem| i@)
}

// ─── Vocabulary checks ────────────────────────────────────────────────────────

/// Whether the vocabulary allows `status` as the proposed status of an item
/// of type `t`: the canonical page type of `t` lists allowed statuses and
/// `status` is one of them.
pub open spec fn allows_proposed(s: ProjectSchema, t: Seq<char>, status: Seq<char>) -> bool {
    match resolved_type(s, t) {
        Some(c) => match lookup(s.page_types@, c) {
            Some(def) => def.allowed_statuses.len() > 0 && holds(def.allowed_statuses@, status),
            None => false,
        },
        None => false,
    }
}

/// Whether the vocabulary allows a proposed status for an item type.
pub fn vocabulary_allows_proposed_status(schema: &ProjectSchema, item_type: &str, status: &str) -> (r: bool)
    ensures
        r == allows_proposed(*schema, item_type@, status@),
{
    let canonical = match resolve_type(schema, item_type) {
        Some(t) => t,
        None => return false,
    };
    match find_key(&schema.page_types, canonical) {
        Some(i) => {
            let def = &schema.page_types[i].1;
            def.allowed_statuses.len() > 0 && contains_str(&def.allowed_statuses, status)
        },
        None => false,
    }
}

/// The name a page type goes by in the prompt: its first alias, else its
/// canonical name.
pub open spec fn display_of(canonical: Seq<char>, def: PageTypeDef) -> Seq<char> {
    if def.aliases.len() > 0 { def.aliases@[0]@ } else { canonical }
}

/// The name a page type goes by in the prompt.
pub fn display_name<'a>(canonical: &'a str, def: &'a PageTypeDef) -> (r: &'a str)
    ensures
        r@ == display_of(canonical@, *def),
{
    if def.aliases.len() > 0 {
        def.aliases[0].as_str()
    } else {
        canonical
    }
}

// ─── The default marker of extracted tasks ────────────────────────────────────

/// The statuses in which work is finished.
pub open spec fn terminal_statuses() -> Seq<Seq<char>> {
    seq!["done"@, "cancelled"@, "closed"@, "resolved"@, "achieved"@, "missed"@, "inactive"@, "accepted"@, "mitigated"@]
}

/// The tiers a default marker is taken from: a marker of the `todo`
/// status (tier 0), of a status that is not terminal (tier 1), or any
/// marker (tier 2).
pub open spec fn in_tier(tier: int, status: Seq<char>) -> bool {
    if tier == 0 {
        status == "todo"@
    } else if tier == 1 {
        !terminal_statuses().contains(status)
    } else {
        true
    }
}

/// Some marker maps to a status of the tier.
pub open spec fn tier_used(m: Seq<(String, String)>, tier: int) -> bool {
    exists|i: int| 0 <= i < m.len() && in_tier(tier, (#[trigger] m[i]).1@)
}

/// `k` is the least marker (in name order) whose status is in the tier.
pub open spec fn least_in_tier(m: Seq<(String, String)>, tier: int, k: Seq<char>) -> bool {
    &&& exists|i: int| 0 <= i < m.len() && (#[trigger] m[i]).0@ == k && in_tier(tier, m[i].1@)
    &&& forall|j: int| 0 <= j < m.len() && in_tier(tier, (#[trigger] m[j]).1@) ==> seq_le(k, m[j].0@)
}

/// The tier the default marker comes from: the first one used.
pub open spec fn default_tier(m: Seq<(String, String)>) -> int {
    if tier_used(m, 0) { 0 } else if tier_used(m, 1) { 1 } else { 2 }
}

/// The least marker whose status is in the tier, if any.
fn least_marker(markers: &Vec<(String, String)>, tier: u8) -> (r: Option<usize>)
    requires
        tier <= 2,
    ensures
        r matches Some(i) ==> i < markers.len() && least_in_tier(markers@, tier as int, markers@[i as int].0@),
        r is None ==> !tier_used(markers@, tier as int),
{
    let terminal: [&str; 9] = ["done", "cancelled", "closed", "resolved", "achieved", "missed", "inactive", "accepted", "mitigated"];
    let mut best: Option<usize> = None;
    for i in 0..markers.len()
        invariant
            tier <= 2,
            terminal@.map_values(|t: &str| t@) == terminal_statuses(),
            best matches Some(b) ==> b < i && in_tier(tier as int, markers@[b as int].1@)
                && forall|j: int| 0 <= j < i && in_tier(tier as int, (#[trigger] markers@[j]).1@) ==> seq_le(markers@[b as int].0@, markers@[j].0@),
            best is None ==> forall|j: int| 0 <= j < i ==> !in_tier(tier as int, (#[trigger] markers@[j]).1@),
    {
        let status = markers[i].1.as_str();
        let fits = if tier == 0 {
            str_eq(status, "todo")
        } else if tier == 1 {
            let mut found = false;
            let mut t: usize = 0;
            while t < 9
                invariant
                    t <= 9,
                    terminal@.map_values(|x: &str| x@) == terminal_statuses(),
                    found == exists|u: int| 0 <= u < t && terminal_statuses()[u] == status@,
                decreases 9 - t,
            {
                proof { assert(terminal_statuses()[t as int] == terminal@[t as int]@); }
                if str_eq(terminal[t], status) {
                    found = true;
                }
                t = t + 1;
            }
            !found
        } else {
            true
        };
        proof {
            if tier == 1 {
                assert(terminal_statuses().len() == 9);
            }
        }
        match best {
            Some(b) => {
                if fits && str_lt(markers[i].0.as_str(), markers[b].0.as_str()) {
                    proof {
                        assert forall|j: int| 0 <= j < i + 1 && in_tier(tier as int, (#[trigger] markers@[j]).1@)
                            implies seq_le(markers@[i as int].0@, markers@[j].0@) by {
                            if j < i {
                                assert(seq_le(markers@[b as int].0@, markers@[j].0@));
                                if markers@[b as int].0@ != markers@[j].0@ {
                                    crate::text::lemma_seq_lt_transitive(markers@[i as int].0@, markers@[b as int].0@, markers@[j].0@);
                                }
                            }
                        }
                    }
                    best = Some(i);
                } else {
                    proof {
                        if fits {
                            crate::text::lemma_seq_lt_total(markers@[i as int].0@, markers@[b as int].0@);
                        }
                    }
                }
            },
            None => {
                if fits {
                    best = Some(i);
                }
            },
        }
    }
    proof {
        match best {
            Some(b) => {
                assert(markers@[b as int].0@ == markers@[b as int].0@ && in_tier(tier as int, markers@[b as int].1@));
            },
            None => {},
        }
    }
    best
}

/// The marker extracted tasks start with: the least marker (in name order)
/// of the `todo` status, else of a status that is not terminal, else the
/// least marker; none when there are no markers.
pub fn default_active_marker(markers: &Vec<(String, String)>) -> (r: Option<String>)
    ensures
        r is None <==> markers.len() == 0,
        r matches Some(k) ==> least_in_tier(markers@, default_tier(markers@), k@),
{
    match least_marker(markers, 0) {
        Some(i) => return Some(markers[i].0.clone()),
        None => {},
    }
    match least_marker(markers, 1) {
        Some(i) => return Some(markers[i].0.clone()),
        None => {},
    }
    match least_marker(markers, 2) {
        Some(i) => Some(markers[i].0.clone()),
        None => {
            proof {
                if markers.len() > 0 {
                    assert(in_tier(2, markers@[0].1@));
                }
            }
            None
        },
    }
}

// ─── The prompt ───────────────────────────────────────────────────────────────

/// A page type is superseded by a block type of the same name, compared
/// without regard to case.
pub open spec fn superseded(s: ProjectSchema, c: Seq<char>) -> bool {
    exists|j: int| 0 <= j < s.block_types.len() && lowercase((#[trigger] s.block_types@[j]).0@) == lowercase(c)
}

/// The name a page type is listed under, unless a block type supersedes it.
pub open spec fn listed_page(s: ProjectSchema) -> spec_fn((String, PageTypeDef)) -> Option<Seq<char>> {
    |e: (String, PageTypeDef)| if superseded(s, e.0@) { None } else { Some(display_of(e.0@, e.1)) }
}

/// The type names offered to the model: the page types not superseded by a
/// block type (by the names they go by) and the block types.
pub open spec fn type_names(s: ProjectSchema) -> Seq<Seq<char>> {
    s.page_types@.filter_map(listed_page(s)) + s.block_types@.map_values(|e: (String, BlockTypeDef)| e.0@)
}

/// The list of type names in the prompt: sorted, separated by commas.
pub open spec fn type_list_text(s: ProjectSchema) -> Seq<char> {
    join(type_names(s).sort_by(seq_leq()), ", "@)
}

/// The list of type names the model may classify items as.
pub fn build_type_list(schema: &ProjectSchema) -> (r: String)
    ensures
        r@ == type_list_text(*schema),
{
    let mut lowered: Vec<String> = Vec::new();
    for j in 0..schema.block_types.len()
        invariant
            lowered.len() == j,
            forall|k: int| 0 <= k < j ==> (#[trigger] lowered@[k])@ == lowercase(schema.block_types@[k].0@),
    {
        lowered.push(str_to_lowercase(schema.block_types[j].0.as_str()));
    }
    let ghost f = listed_page(*schema);
    let mut names: Vec<String> = Vec::new();
    for i in 0..schema.page_types.len()
        invariant
            f == listed_page(*schema),
            lowered.len() == schema.block_types.len(),
            forall|k: int| 0 <= k < lowered.len() ==> (#[trigger] lowered@[k])@ == lowercase(schema.block_types@[k].0@),
            views(names@) == schema.page_types@.take(i as int).filter_map(f),
    {
        proof { assert(schema.page_types@.take(i + 1).drop_last() =~= schema.page_types@.take(i as int)); }
        let low = str_to_lowercase(schema.page_types[i].0.as_str());
        let hit = contains_str(&lowered, low.as_str());
        proof {
            if hit {
                let k = choose|k: int| 0 <= k < lowered.len() && (#[trigger] lowered@[k])@ == low@;
                assert(lowercase(schema.block_types@[k].0@) == lowercase(schema.page_types@[i as int].0@));
                assert(superseded(*schema, schema.page_types@[i as int].0@));
            } else {
                assert forall|j: int| 0 <= j < schema.block_types.len()
                    implies lowercase((#[trigger] schema.block_types@[j]).0@) != lowercase(schema.page_types@[i as int].0@) by {
                    assert(lowered@[j]@ == lowercase(schema.block_types@[j].0@));
                }
                assert(!superseded(*schema, schema.page_types@[i as int].0@));
            }
        }
        let ghost before = views(names@);
        if !hit {
            let name = display_name(schema.page_types[i].0.as_str(), &schema.page_types[i].1);
            names.push(name.to_owned());
            proof { assert(views(names@) =~= before + seq![display_of(schema.page_types@[i as int].0@, schema.page_types@[i as int].1)]); }
        }
    }
    proof { assert(schema.page_types@.take(schema.page_types.len() as int) =~= schema.page_types@); }
    let ghost pages = views(names@);
    for j in 0..schema.block_types.len()
        invariant
            views(names@) == pages + schema.block_types@.take(j as int).map_values(|e: (String, BlockTypeDef)| e.0@),
    {
        let ghost before = views(names@);
        names.push(schema.block_types[j].0.clone());
        proof {
            assert(views(names@) =~= before.push(schema.block_types@[j as int].0@));
            assert(schema.block_types@.take(j + 1).map_values(|e: (String, BlockTypeDef)| e.0@)
                =~= schema.block_types@.take(j as int).map_values(|e: (String, BlockTypeDef)| e.0@).push(schema.block_types@[j as int].0@));
        }
    }
    proof {
        assert(schema.block_types@.take(schema.block_types.len() as int) =~= schema.block_types@);
        assert(views(names@) =~= type_names(*schema));
    }
    let sorted = sort_strings(&names);
    join_strings(&sorted, ", ")
}

/// The line of a page type that lists allowed statuses.
pub open spec fn status_line(e: (String, PageTypeDef)) -> Option<Seq<char>> {
    if e.1.allowed_statuses.len() == 0 {
        None
    } else {
        Some("- "@ + display_of(e.0@, e.1) + ": "@ + join(views(e.1.allowed_statuses@), ", "@))
    }
}

/// The status section of the prompt: a line per page type (in key order)
/// that lists allowed statuses, or a note when none does.
pub open spec fn status_section_text(s: ProjectSchema) -> Seq<char> {
    let lines = s.page_types@.filter_map(|e: (String, PageTypeDef)| status_line(e));
    if lines.len() == 0 {
        "(no specific status vocabulary defined; use null)"@
    } else {
        join(lines, "\n"@)
    }
}

/// The statuses the model may propose, by type.
pub fn build_status_section(schema: &ProjectSchema) -> (r: String)
    ensures
        r@ == status_section_text(*schema),
{
    let ghost f = |e: (String, PageTypeDef)| status_line(e);
    let mut lines: Vec<String> = Vec::new();
    for i in 0..schema.page_types.len()
        invariant
            f == (|e: (String, PageTypeDef)| status_line(e)),
            views(lines@) == schema.page_types@.take(i as int).filter_map(f),
    {
        proof { assert(schema.page_types@.take(i + 1).drop_last() =~= schema.page_types@.take(i as int)); }
        let def = &schema.page_types[i].1;
        let ghost before = views(lines@);
        if def.allowed_statuses.len() > 0 {
            let mut line = "- ".to_owned();
            line.append(display_name(schema.page_types[i].0.as_str(), def));
            line.append(": ");
            let statuses = join_strings(&def.allowed_statuses, ", ");
            line.append(statuses.as_str());
            lines.push(line);
            proof { assert(views(lines@) =~= before + seq![status_line(schema.page_types@[i as int]).unwrap()]); }
        }
    }
    proof { assert(schema.page_types@.take(schema.page_types.len() as int) =~= schema.page_types@); }
    if lines.len() == 0 {
        "(no specific status vocabulary defined; use null)".to_owned()
    } else {
        join_strings(&lines, "\n")
    }
}

/// The views of work packages: identifier and description.
pub open spec fn wps_view(w: Seq<WpRecord>) -> Seq<(Seq<char>, Seq<char>)> {
    w.map_values(|x: WpRecord| (x.uuid@, x.description@))
}

/// The lines of work packages in the prompt.
pub open spec fn wp_lines(w: Seq<(Seq<char>, Seq<char>)>) -> Seq<char>
    decreases w.len(),
{
    if w.len() == 0 { Seq::empty() } else { wp_lines(w.drop_last()) + "\n  UUID: "@ + w.last().0 + " — "@ + w.last().1 }
}

/// The rule for placing tasks under work packages.
pub open spec fn task_rule() -> Seq<char> {
    "For task items: if the text unambiguously places a task under one of the above work packages (via a heading directly above the task or an explicit name reference in the task text), set parent_item_id to that work package's UUID. Otherwise set parent_item_id to null. Do not guess."@
}

/// The work package section of the prompt: empty when there are none.
pub open spec fn wp_section_text(w: Seq<(Seq<char>, Seq<char>)>) -> Seq<char> {
    if w.len() == 0 {
        Seq::empty()
    } else {
        "\nWork Package Attribution:\nThe following work packages exist in the project record:"@ + wp_lines(w) + "\n\n"@ + task_rule()
    }
}

/// The system prompt of an extraction.
pub open spec fn prompt_text(s: ProjectSchema, w: Seq<(Seq<char>, Seq<char>)>) -> Seq<char> {
    "You are a project management assistant. Extract project management elements from text.\n\nFor each element found, classify it as exactly one of the following types: "@ + type_list_text(s) + "\n\nRules:\n- Only extract information explicitly present in the text. Do not infer or invent.\n- If wording is ambiguous, mark the item as uncertain and explain why.\n- If no project management elements are present, return an empty items array.\n- Use only the exact type names listed above (or their aliases shown in parentheses).\n\nFor each item, also propose an initial status and priority if the text provides a basis:\n\nproposed_status — infer from text context. Valid values by type:\n"@ + status_section_text(s) + "\nUse null if the text gives no clear indication.\n\nproposed_priority — infer urgency or importance from text. Valid values: \"high\", \"medium\", \"low\".\nUse null if the text gives no clear indication.\n"@ + wp_section_text(w) + "\nReturn ONLY a JSON object with this exact structure (no other text):\n{\n  \"items\": [\n    {\n      \"item_type\": \"one of the types listed above\",\n      \"description\": \"exact description from text\",\n      \"uncertain\": false,\n      \"uncertainty_reason\": null,\n      \"proposed_status\": \"status_value or null\",\n      \"proposed_priority\": \"high|medium|low or null\",\n      \"parent_item_id\": \"work_package_uuid or null\"\n    }\n  ]\n}"@
}

/// The system prompt: the vocabulary's types and statuses, the work
/// packages tasks may be placed under, and the reply's shape.
pub fn build_system_prompt(schema: &ProjectSchema, wp_items: &Vec<WpRecord>) -> (r: String)
    ensures
        r@ == prompt_text(*schema, wps_view(wp_items@)),
{
    let ghost wv = wps_view(wp_items@);
    let type_list = build_type_list(schema);
    let status_section = build_status_section(schema);
    let mut wp_section = String::new();
    if wp_items.len() > 0 {
        wp_section.append("\nWork Package Attribution:\nThe following work packages exist in the project record:");
        let ghost head = wp_section@;
        for k in 0..wp_items.len()
            invariant
                wv == wps_view(wp_items@),
                wp_section@ == head + wp_lines(wv.take(k as int)),
        {
            proof { assert(wv.take(k + 1).drop_last() =~= wv.take(k as int)); }
            wp_section.append("\n  UUID: ");
            wp_section.append(wp_items[k].uuid.as_str());
            wp_section.append(" — ");
            wp_section.append(wp_items[k].description.as_str());
        }
        proof { assert(wv.take(wp_items.len() as int) =~= wv); }
        wp_section.append("\n\n");
        wp_section.append("For task items: if the text unambiguously places a task under one of the above work packages (via a heading directly above the task or an explicit name reference in the task text), set parent_item_id to that work package's UUID. Otherwise set parent_item_id to null. Do not guess.");
    }
    proof { reveal_strlit(""); }
    let mut r = "You are a project management assistant. Extract project management elements from text.\n\nFor each element found, classify it as exactly one of the following types: ".to_owned();
    r.append(type_list.as_str());
    r.append("\n\nRules:\n- Only extract information explicitly present in the text. Do not infer or invent.\n- If wording is ambiguous, mark the item as uncertain and explain why.\n- If no project management elements are present, return an empty items array.\n- Use only the exact type names listed above (or their aliases shown in parentheses).\n\nFor each item, also propose an initial status and priority if the text provides a basis:\n\nproposed_status — infer from text context. Valid values by type:\n");
    r.append(status_section.as_str());
    r.append("\nUse null if the text gives no clear indication.\n\nproposed_priority — infer urgency or importance from text. Valid values: \"high\", \"medium\", \"low\".\nUse null if the text gives no clear indication.\n");
    r.append(wp_section.as_str());
    r.append("\nReturn ONLY a JSON object with this exact structure (no other text):\n{\n  \"items\": [\n    {\n      \"item_type\": \"one of the types listed above\",\n      \"description\": \"exact description from text\",\n      \"uncertain\": false,\n      \"uncertainty_reason\": null,\n      \"proposed_status\": \"status_value or null\",\n      \"proposed_priority\": \"high|medium|low or null\",\n      \"parent_item_id\": \"work_package_uuid or null\"\n    }\n  ]\n}");
    r
}

/// The user message of an extraction: the source text between rules.
pub open spec fn user_message_text(source: Seq<char>) -> Seq<char> {
    "Extract structured project management elements from the following text:\n\n---\n"@ + source + "\n---"@
}

/// The user message of an extraction.
pub fn user_message(source_text: &str) -> (r: String)
    ensures
        r@ == user_message_text(source_text@),
{
    let mut r = "Extract structured project management elements from the following text:\n\n---\n".to_owned();
    r.append(source_text);
    r.append("\n---");
    r
}

// ─── Checking proposed items ──────────────────────────────────────────────────

/// The type an extracted item is stored with: the proposed type when the
/// vocabulary knows it (as proposed, alias or not), else `unknown`.
pub open spec fn stored_type(s: ProjectSchema, raw: RawView) -> Seq<char> {
    if resolved_type(s, raw.item_type) is Some { raw.item_type } else { "unknown"@ }
}

/// An item of type `t` is a task of the task block type `tc`.
pub open spec fn is_task_item(s: ProjectSchema, t: Seq<char>, tc: Option<Seq<char>>) -> bool {
    t != "unknown"@ && block_type_named(s, t) && tc is Some && resolved_type(s, t) == tc
}

/// The reason recorded for a type the vocabulary does not know.
pub open spec fn unknown_type_reason(t: Seq<char>) -> Seq<char> {
    "type not recognized by active vocabulary: "@ + t
}

/// The item extracted from a proposed one, with identifier `id`: an
/// unknown type is stored as `unknown` and marked uncertain with a reason;
/// a proposed status is kept only when the vocabulary allows it for the
/// stored type (never for `unknown`), a proposed priority only when it is
/// high, medium or low; a task of the task block type keeps its work
/// package only when it is one of `wps`, and starts with marker `dm`.
pub open spec fn processed(s: ProjectSchema, raw: RawView, wps: Seq<Seq<char>>, tc: Option<Seq<char>>, dm: Option<Seq<char>>,
    id: Seq<char>) -> ExtractedView {
    let known = resolved_type(s, raw.item_type) is Some;
    let t = stored_type(s, raw);
    let task = is_task_item(s, t, tc);
    ExtractedView {
        item_id: id,
        item_type: t,
        description: raw.description,
        uncertain: if known { raw.uncertain } else { true },
        uncertainty_reason: if known { raw.uncertainty_reason } else { Some(unknown_type_reason(raw.item_type)) },
        proposed_status: if t == "unknown"@ {
            None
        } else {
            match raw.proposed_status {
                Some(x) => if allows_proposed(s, t, x) { Some(x) } else { None },
                None => None,
            }
        },
        proposed_priority: match raw.proposed_priority {
            Some(x) => if crate::status::valid_priority(x) { Some(x) } else { None },
            None => None,
        },
        parent_item_id: if task {
            match raw.parent_item_id {
                Some(x) => if wps.contains(x) { Some(x) } else { None },
                None => None,
            }
        } else {
            None
        },
        initial_marker: if task { dm } else { None },
    }
}

/// Checks an item the model proposed against the vocabulary and the known
/// work packages, giving it identifier `item_id`.
pub fn process_raw_item(schema: &ProjectSchema, raw: RawItem, valid_wp_uuids: &Vec<String>, task_canonical: Option<&str>,
    default_marker: Option<&str>, item_id: String) -> (r: ExtractedItem)
    ensures
        r@ == processed(*schema, raw@, views(valid_wp_uuids@), opt_str_view(task_canonical), opt_str_view(default_marker), item_id@),
{
    let ghost rv = raw@;
    let known = resolve_type(schema, raw.item_type.as_str()).is_some();
    let (stored, uncertain, uncertainty_reason) = if known {
        (raw.item_type.clone(), raw.uncertain, raw.uncertainty_reason)
    } else {
        let mut reason = "type not recognized by active vocabulary: ".to_owned();
        reason.append(raw.item_type.as_str());
        ("unknown".to_owned(), true, Some(reason))
    };
    proof {
        if !known {
            reveal_strlit("unknown");
        }
    }
    let is_unknown = str_eq(stored.as_str(), "unknown");
    let proposed_status = if is_unknown {
        None
    } else {
        match raw.proposed_status {
            Some(x) => if vocabulary_allows_proposed_status(schema, stored.as_str(), x.as_str()) { Some(x) } else { None },
            None => None,
        }
    };
    let proposed_priority = match raw.proposed_priority {
        Some(x) => if crate::status::is_valid_priority(x.as_str()) { Some(x) } else { None },
        None => None,
    };
    let task = !is_unknown && is_block_type(schema, stored.as_str()) && match task_canonical {
        Some(tc) => match resolve_type(schema, stored.as_str()) {
            Some(c) => str_eq(c, tc),
            None => false,
        },
        None => false,
    };
    let parent_item_id = if task {
        match raw.parent_item_id {
            Some(x) => {
                let known_wp = contains_str(valid_wp_uuids, x.as_str());
                proof {
                    if known_wp {
                        let k = choose|k: int| 0 <= k < valid_wp_uuids.len() && (#[trigger] valid_wp_uuids@[k])@ == x@;
                        assert(views(valid_wp_uuids@)[k] == x@);
                    } else {
                        assert forall|k: int| 0 <= k < views(valid_wp_uuids@).len() implies views(valid_wp_uuids@)[k] != x@ by {
                            assert(views(valid_wp_uuids@)[k] == valid_wp_uuids@[k]@);
                        }
                    }
                }
                if known_wp { Some(x) } else { None }
            },
            None => None,
        }
    } else {
        None
    };
    let initial_marker = if task {
        match default_marker {
            Some(m) => Some(m.to_owned()),
            None => None,
        }
    } else {
        None
    };
    ExtractedItem {
        item_id,
        item_type: stored,
        description: raw.description,
        uncertain,
        uncertainty_reason,
        proposed_status,
        proposed_priority,
        parent_item_id,
        initial_marker,
    }
}

/// The text of a random UUID in hyphenated lowercase form: 36 characters,
/// hyphens at 8, 13, 18 and 23, lowercase hexadecimal digits elsewhere, the
/// version digit `4` at 14 and a variant digit `8`, `9`, `a` or `b` at 19.
pub open spec fn uuid_text(s: Seq<char>) -> bool {
    &&& s.len() == 36
    &&& forall|i: int| 0 <= i < 36 ==> if i == 8 || i == 13 || i == 18 || i == 23 {
            #[trigger] s[i] == '-'
        } else {
            ('0' <= s[i] <= '9') || ('a' <= s[i] <= 'f')
        }
    &&& s[14] == '4'
    &&& (s[19] == '8' || s[19] == '9' || s[19] == 'a' || s[19] == 'b')
}

/// A fresh item identifier.
///
/// Trusted: `Uuid::new_v4` masks a random 128-bit number into a version-4,
/// variant-1 UUID, and its string form (`Display`, which is `LowerHex` of
/// the hyphenated form) writes the sixteen bytes as 32 lowercase hex digits
/// in groups of 8-4-4-4-12. Which UUID comes back is chance, so only that
/// shape is stated.
#[verifier::external_body]
pub(crate) fn new_item_id() -> (r: String)
    ensures
        uuid_text(r@),
{
    uuid::Uuid::new_v4().to_string()
}

/// The identifiers of the work packages.
fn wp_uuids(wp_items: &Vec<WpRecord>) -> (r: Vec<String>)
    ensures
        views(r@) == wps_view(wp_items@).map_values(|w: (Seq<char>, Seq<char>)| w.0),
{
    let mut r: Vec<String> = Vec::new();
    for k in 0..wp_items.len()
        invariant
            views(r@) == wps_view(wp_items@).take(k as int).map_values(|w: (Seq<char>, Seq<char>)| w.0),
    {
        let ghost before = views(r@);
        r.push(wp_items[k].uuid.clone());
        proof {
            assert(views(r@) =~= before.push(wp_items@[k as int].uuid@));
            assert(wps_view(wp_items@).take(k + 1) =~= wps_view(wp_items@).take(k as int).push((wp_items@[k as int].uuid@, wp_items@[k as int].description@)));
        }
    }
    proof { assert(wps_view(wp_items@).take(wp_items.len() as int) =~= wps_view(wp_items@)); }
    r
}

/// The task block type of the vocabulary, if any.
pub open spec fn task_type(s: ProjectSchema) -> Option<Seq<char>> {
    match task_block_index(s) {
        Some(i) => Some(s.block_types@[i].0@),
        None => None,
    }
}

/// `dm` is the marker extracted tasks start with: none without a task
/// block type, else the default marker of its markers.
pub open spec fn is_default_marker(s: ProjectSchema, dm: Option<Seq<char>>) -> bool {
    match task_block_index(s) {
        Some(i) => {
            let m = s.block_types@[i].1.markers@;
            match dm {
                Some(k) => least_in_tier(m, default_tier(m), k),
                None => m.len() == 0,
            }
        },
        None => dm is None,
    }
}

/// The items extracted from the model's proposals: each proposal checked
/// against the vocabulary and the work packages, with a fresh identifier,
/// in order.
pub fn extract_from_raw(schema: &ProjectSchema, raws: Vec<RawItem>, wp_items: &Vec<WpRecord>) -> (r: Vec<ExtractedItem>)
    ensures
        r.len() == raws.len(),
        exists|dm: Option<Seq<char>>| is_default_marker(*schema, dm)
            && forall|i: int| 0 <= i < r.len() ==> (#[trigger] r@[i])@ == processed(*schema, raws@[i]@,
                wps_view(wp_items@).map_values(|w: (Seq<char>, Seq<char>)| w.0), task_type(*schema), dm, r@[i].item_id@),
        forall|i: int| 0 <= i < r.len() ==> uuid_text((#[trigger] r@[i]).item_id@),
{
    let (task_canonical, default_marker): (Option<&str>, Option<String>) = match canonical_task_block_type(schema) {
        Some((tc, markers)) => (Some(tc), default_active_marker(markers)),
        None => (None, None),
    };
    let ghost dm = ov(default_marker);
    proof { assert(is_default_marker(*schema, dm)); }
    let uuids = wp_uuids(wp_items);
    let dref: Option<&str> = match &default_marker {
        Some(m) => Some(m.as_str()),
        None => None,
    };
    let ghost rs = raws@;
    let mut out: Vec<ExtractedItem> = Vec::new();
    let mut rest = raws;
    let mut k: usize = 0;
    let n = rest.len();
    proof { assert(rest@ =~= rs.skip(0)); }
    while k < n
        invariant
            n == rs.len(),
            k <= n,
            rest@ == rs.skip(k as int),
            out.len() == k,
            opt_str_view(task_canonical) == task_type(*schema),
            opt_str_view(dref) == dm,
            views(uuids@) == wps_view(wp_items@).map_values(|w: (Seq<char>, Seq<char>)| w.0),
            forall|i: int| 0 <= i < k ==> (#[trigger] out@[i])@ == processed(*schema, rs[i]@,
                wps_view(wp_items@).map_values(|w: (Seq<char>, Seq<char>)| w.0), task_type(*schema), dm, out@[i].item_id@),
            forall|i: int| 0 <= i < k ==> uuid_text((#[trigger] out@[i]).item_id@),
        decreases n - k,
    {
        let raw = rest.remove(0);
        proof { assert(rest@ =~= rs.skip(k + 1)); assert(raw == rs[k as int]); }
        let id = new_item_id();
        let item = process_raw_item(schema, raw, &uuids, task_canonical, dref, id);
        out.push(item);
        k = k + 1;
    }
    out
}

// ─── The model's reply ────────────────────────────────────────────────────────

/// `t` without one leading code fence (` ```json ` or else ` ``` `).
pub open spec fn fence_stripped(t: Seq<char>) -> Seq<char> {
    if starts_with(t, "```json"@) {
        t.skip(7)
    } else if starts_with(t, "```"@) {
        t.skip(3)
    } else {
        t
    }
}

/// The JSON text of a reply: trimmed, without one leading code fence and
/// the trailing ones, trimmed again.
pub open spec fn reply_json(text: Seq<char>) -> Seq<char> {
    trim(strip_trailing(fence_stripped(trim(text)), "```"@))
}

/// The JSON text of the model's reply.
pub fn reply_body(text: &str) -> (r: String)
    ensures
        r@ == reply_json(text@),
{
    let v = chars_of(text);
    proof {
        assert(v@.subrange(0, v.len() as int) =~= v@);
        reveal_strlit("```json");
        reveal_strlit("```");
    }
    let (a, b) = trim_bounds(&v, 0, v.len());
    let a2 = if has_prefix(&v, a, b, "```json") {
        a + 7
    } else if has_prefix(&v, a, b, "```") {
        a + 3
    } else {
        a
    };
    proof { assert(v@.subrange(a2 as int, b as int) =~= fence_stripped(v@.subrange(a as int, b as int))); }
    let b1 = strip_trailing_in(&v, a2, b, "```");
    let (x, y) = trim_bounds(&v, a2, b1);
    string_of(&v, x, y)
}

// ─── Work packages and processed files ────────────────────────────────────────

/// The session of an `ItemsIncorporated` event, whichever module recorded
/// it.
pub open spec fn incorporation_of(e: Json) -> Option<Seq<char>> {
    if str_of(e, "event_type"@) == Some("ItemsIncorporated"@) { pstr_of(e, "session_id"@) } else { None }
}

/// The incorporated sessions, in order.
pub open spec fn incorporations(events: Seq<Json>) -> Seq<Seq<char>> {
    events.filter_map(|e: Json| incorporation_of(e))
}

/// The array `field` of the payload of an event of session `sid` with type
/// `etype`.
pub open spec fn session_array_of(sid: Seq<char>, etype: Seq<char>, field: Seq<char>) -> spec_fn(Json) -> Option<Seq<Json>> {
    |e: Json| if str_of(e, "correlation_id"@) == Some(sid) && str_of(e, "event_type"@) == Some(etype) {
        as_array(get(get(e, "payload"@), field))
    } else {
        None
    }
}

/// The array of the last such event that has one, or none.
pub open spec fn session_array(events: Seq<Json>, sid: Seq<char>, etype: Seq<char>, field: Seq<char>) -> Seq<Json> {
    let arrays = events.filter_map(session_array_of(sid, etype, field));
    if arrays.len() == 0 { Seq::empty() } else { arrays.last() }
}

/// The work package of an extracted entry: its identifier and description,
/// when it was accepted, its type resolves to `wpc` and it has a
/// description.
pub open spec fn wp_of_entry(s: ProjectSchema, wpc: Seq<char>, accepted: Seq<Seq<char>>) -> spec_fn(Json) -> Option<(Seq<char>, Seq<char>)> {
    |it: Json| match str_of(it, "item_id"@) {
        Some(id) => if accepted.contains(id) && resolved_type(s, or_empty(str_of(it, "item_type"@))) == Some(wpc) {
            match str_of(it, "description"@) {
                Some(d) => Some((id, d)),
                None => None,
            }
        } else {
            None
        },
        None => None,
    }
}

/// The work packages of session `sid`.
pub open spec fn session_wps(s: ProjectSchema, events: Seq<Json>, wpc: Seq<char>, sid: Seq<char>) -> Seq<(Seq<char>, Seq<char>)> {
    session_array(events, sid, "ItemsExtracted"@, "items"@).filter_map(
        wp_of_entry(s, wpc, strings_of(session_array(events, sid, "ExtractionConfirmed"@, "accepted_item_ids"@))))
}

/// The work packages of the given sessions, session after session.
pub open spec fn wps_of_sessions(s: ProjectSchema, events: Seq<Json>, wpc: Seq<char>, sids: Seq<Seq<char>>) -> Seq<(Seq<char>, Seq<char>)>
    decreases sids.len(),
{
    if sids.len() == 0 {
        Seq::empty()
    } else {
        wps_of_sessions(s, events, wpc, sids.drop_last()) + session_wps(s, events, wpc, sids.last())
    }
}

/// The work packages of the record: the confirmed items of the incorporated
/// sessions whose type resolves to the one `workpackage` names; none when
/// the vocabulary has no such type.
pub open spec fn work_packages(s: ProjectSchema, events: Seq<Json>) -> Seq<(Seq<char>, Seq<char>)> {
    match resolved_type(s, "workpackage"@) {
        Some(wpc) => wps_of_sessions(s, events, wpc, incorporations(events)),
        None => Seq::empty(),
    }
}

/// The array of the last event of the session with type `etype` that has
/// one.
fn last_session_array<'a>(events: &'a Vec<Json>, sid: &str, etype: &str, field: &str) -> (r: Option<&'a Vec<Json>>)
    ensures
        match r {
            Some(a) => a@ == session_array(events@, sid@, etype@, field@),
            None => session_array(events@, sid@, etype@, field@) == Seq::<Json>::empty()
                && events@.filter_map(session_array_of(sid@, etype@, field@)).len() == 0,
        },
{
    let ghost f = session_array_of(sid@, etype@, field@);
    let mut found: Option<&Vec<Json>> = None;
    for i in 0..events.len()
        invariant
            f == session_array_of(sid@, etype@, field@),
            match found {
                Some(a) => events@.take(i as int).filter_map(f).len() > 0 && a@ == events@.take(i as int).filter_map(f).last(),
                None => events@.take(i as int).filter_map(f).len() == 0,
            },
    {
        proof { assert(events@.take(i + 1).drop_last() =~= events@.take(i as int)); }
        let e = &events[i];
        let hit = match (jstr(e, "correlation_id"), jstr(e, "event_type")) {
            (Some(c), Some(t)) => str_eq(c, sid) && str_eq(t, etype),
            _ => false,
        };
        if hit {
            match jpayload(e) {
                Some(p) => match jarr(p, field) {
                    Some(a) => { found = Some(a); },
                    None => {},
                },
                None => {},
            }
        }
    }
    proof { assert(events@.take(events.len() as int) =~= events@); }
    found
}

/// The work packages of one session.
fn read_session_wps(schema: &ProjectSchema, events: &Vec<Json>, wpc: &str, sid: &str) -> (r: Vec<WpRecord>)
    ensures
        wps_view(r@) == session_wps(*schema, events@, wpc@, sid@),
{
    let empty: Vec<Json> = Vec::new();
    let items: &Vec<Json> = match last_session_array(events, sid, "ItemsExtracted", "items") {
        Some(a) => a,
        None => &empty,
    };
    let accepted: Vec<String> = match last_session_array(events, sid, "ExtractionConfirmed", "accepted_item_ids") {
        Some(a) => crate::record::strings_in(a),
        None => Vec::new(),
    };
    proof {
        assert(items@ == session_array(events@, sid@, "ItemsExtracted"@, "items"@));
        assert(views(accepted@) == strings_of(session_array(events@, sid@, "ExtractionConfirmed"@, "accepted_item_ids"@)));
    }
    let ghost acc = views(accepted@);
    let ghost f = wp_of_entry(*schema, wpc@, acc);
    let mut out: Vec<WpRecord> = Vec::new();
    for i in 0..items.len()
        invariant
            f == wp_of_entry(*schema, wpc@, acc),
            acc == views(accepted@),
            wps_view(out@) == items@.take(i as int).filter_map(f),
    {
        proof { assert(items@.take(i + 1).drop_last() =~= items@.take(i as int)); }
        let it = &items[i];
        let ghost before = wps_view(out@);
        match jstr(it, "item_id") {
            Some(id) => {
                let ok = contains_str(&accepted, id);
                proof {
                    if ok {
                        let k = choose|k: int| 0 <= k < accepted.len() && (#[trigger] accepted@[k])@ == id@;
                        assert(acc[k] == id@);
                    } else {
                        assert forall|k: int| 0 <= k < acc.len() implies acc[k] != id@ by {
                            assert(acc[k] == accepted@[k]@);
                        }
                    }
                }
                if ok {
                    let t = match jstr(it, "item_type") {
                        Some(t) => t,
                        None => "",
                    };
                    proof {
                        reveal_strlit("");
                        assert(t@ == or_empty(str_of(*it, "item_type"@)));
                    }
                    let same = match resolve_type(schema, t) {
                        Some(c) => str_eq(c, wpc),
                        None => false,
                    };
                    proof {
                        assert(same == (resolved_type(*schema, or_empty(str_of(*it, "item_type"@))) == Some(wpc@)));
                    }
                    if same {
                        match jstr(it, "description") {
                            Some(d) => {
                                out.push(WpRecord { uuid: id.to_owned(), description: d.to_owned() });
                                proof { assert(wps_view(out@) =~= before + seq![(id@, d@)]); }
                            },
                            None => {},
                        }
                    }
                }
            },
            None => {},
        }
    }
    proof { assert(items@.take(items.len() as int) =~= items@); }
    out
}

/// The work packages of the record, which extracted tasks may be placed
/// under.
pub fn read_wp_items(schema: &ProjectSchema, events: &Vec<Json>) -> (r: Vec<WpRecord>)
    ensures
        wps_view(r@) == work_packages(*schema, events@),
{
    let wpc = match resolve_type(schema, "workpackage") {
        Some(c) => c,
        None => return Vec::new(),
    };
    let mut sessions: Vec<String> = Vec::new();
    for i in 0..events.len()
        invariant
            views(sessions@) == events@.take(i as int).filter_map(|e: Json| incorporation_of(e)),
    {
        proof { assert(events@.take(i + 1).drop_last() =~= events@.take(i as int)); }
        let e = &events[i];
        let ghost before = views(sessions@);
        let is_inc = match jstr(e, "event_type") {
            Some(t) => str_eq(t, "ItemsIncorporated"),
            None => false,
        };
        if is_inc {
            match jpstr(e, "session_id") {
                Some(sid) => {
                    sessions.push(sid.to_owned());
                    proof { assert(views(sessions@) =~= before + seq![sid@]); }
                },
                None => {},
            }
        }
    }
    proof { assert(events@.take(events.len() as int) =~= events@); }
    let ghost sv = views(sessions@);
    let mut all: Vec<WpRecord> = Vec::new();
    for k in 0..sessions.len()
        invariant
            sv == views(sessions@),
            wps_view(all@) == wps_of_sessions(*schema, events@, wpc@, sv.take(k as int)),
    {
        proof {
            assert(sv.take(k + 1).drop_last() =~= sv.take(k as int));
            assert(sv.take(k + 1).last() == sessions@[k as int]@);
        }
        let mut more = read_session_wps(schema, events, wpc, sessions[k].as_str());
        let ghost before = wps_view(all@);
        let ghost added = wps_view(more@);
        all.append(&mut more);
        proof { assert(wps_view(all@) =~= before + added); }
    }
    proof { assert(sv.take(sessions.len() as int) =~= sv); }
    all
}

/// The source file of an `ItemsExtracted` event, whichever module recorded
/// it.
pub open spec fn extracted_source(e: Json) -> Option<Seq<char>> {
    if str_of(e, "event_type"@) == Some("ItemsExtracted"@) { pstr_of(e, "source_file"@) } else { None }
}

/// The files the record shows as extracted already, in order.
pub open spec fn processed_files(events: Seq<Json>) -> Seq<Seq<char>> {
    events.filter_map(|e: Json| extracted_source(e))
}

/// The files extracted already.
pub fn already_processed_files(events: &Vec<Json>) -> (r: Vec<String>)
    ensures
        views(r@) == processed_files(events@),
{
    let mut r: Vec<String> = Vec::new();
    for i in 0..events.len()
        invariant
            views(r@) == events@.take(i as int).filter_map(|e: Json| extracted_source(e)),
    {
        proof { assert(events@.take(i + 1).drop_last() =~= events@.take(i as int)); }
        let e = &events[i];
        let ghost before = views(r@);
        let hit = match jstr(e, "event_type") {
            Some(t) => str_eq(t, "ItemsExtracted"),
            None => false,
        };
        if hit {
            match jpstr(e, "source_file") {
                Some(f) => {
                    r.push(f.to_owned());
                    proof { assert(views(r@) =~= before + seq![f@]); }
                },
                None => {},
            }
        }
    }
    proof { assert(events@.take(events.len() as int) =~= events@); }
    r
}

// ─── Extraction decisions ─────────────────────────────────────────────────────

/// The module that records extractions.
pub open spec fn pm_module() -> Seq<char> {
    "pm_structuring"@
}

/// Records one extraction event.
fn emit_pm(outbox: &mut Vec<OutEvent>, etype: &str, cid: &str, payload: Vec<(String, Json)>)
    ensures
        appended(old(outbox)@, final(outbox)@, pm_module(), cid@, seq![(etype@, pv(payload@))]),
{
    let ghost start = outbox@;
    proof { lemma_appended_none(start, pm_module(), cid@); }
    emit(outbox, etype, "pm_structuring", cid, payload);
    proof {
        lemma_appended_push(start, start, outbox@, pm_module(), cid@, Seq::empty(), (etype@, pv(payload@)));
        assert(Seq::<EventSpec>::empty().push((etype@, pv(payload@))) =~= seq![(etype@, pv(payload@))]);
    }
}

/// Records the text submitted for extraction (with its length in bytes);
/// when it is blank, also records the failure. Returns whether the text
/// holds something to extract.
pub fn submit_text(source_text: &str, cid: &str, outbox: &mut Vec<OutEvent>) -> (r: bool)
    ensures
        r == (trim(source_text@).len() > 0),
        ({
            let submitted: EventSpec = ("TextSubmitted"@, seq![("source_text"@, JView::Str(source_text@)),
                ("input_length"@, JView::Num(source_text.len() as u64))]);
            if r {
                appended(old(outbox)@, final(outbox)@, pm_module(), cid@, seq![submitted])
            } else {
                appended(old(outbox)@, final(outbox)@, pm_module(), cid@, seq![submitted,
                    ("ExtractionFailedEmptyInput"@, seq![("failure_reason"@, JView::Str("empty_input"@))])])
            }
        }),
{
    let ghost start = outbox@;
    let ghost submitted: EventSpec = ("TextSubmitted"@, seq![("source_text"@, JView::Str(source_text@)),
        ("input_length"@, JView::Num(source_text.len() as u64))]);
    proof { lemma_appended_none(start, pm_module(), cid@); }
    emit(outbox, "TextSubmitted", "pm_structuring", cid,
        payload2("source_text", js(source_text), "input_length", Json::Num(source_text.len() as u64)));
    proof {
        lemma_appended_push(start, start, outbox@, pm_module(), cid@, Seq::empty(), submitted);
        assert(Seq::<EventSpec>::empty().push(submitted) =~= seq![submitted]);
    }
    let v = chars_of(source_text);
    proof { assert(v@.subrange(0, v.len() as int) =~= source_text@); }
    let (a, b) = trim_bounds(&v, 0, v.len());
    if a == b {
        let ghost mid = outbox@;
        let ghost failed: EventSpec = ("ExtractionFailedEmptyInput"@, seq![("failure_reason"@, JView::Str("empty_input"@))]);
        emit(outbox, "ExtractionFailedEmptyInput", "pm_structuring", cid, payload1("failure_reason", js("empty_input")));
        proof {
            lemma_appended_push(start, mid, outbox@, pm_module(), cid@, seq![submitted], failed);
            assert(seq![submitted].push(failed) =~= seq![submitted, failed]);
        }
        false
    } else {
        true
    }
}

/// Records that the model could not be asked or its reply not read.
pub fn extraction_api_failed(detail: &str, cid: &str, outbox: &mut Vec<OutEvent>)
    ensures
        appended(old(outbox)@, final(outbox)@, pm_module(), cid@, seq![("ExtractionFailedApiRequest"@,
            seq![("failure_reason"@, JView::Str("api_request_failed"@)), ("error_detail"@, JView::Str(detail@))])]),
{
    emit_pm(outbox, "ExtractionFailedApiRequest", cid, payload2("failure_reason", js("api_request_failed"), "error_detail", js(detail)));
}

/// The JSON object of an extracted item.
pub open spec fn item_json(i: ExtractedView) -> JView {
    JView::Obj(seq![("item_id"@, JView::Str(i.item_id)), ("item_type"@, JView::Str(i.item_type)),
        ("description"@, JView::Str(i.description)), ("uncertain"@, JView::Bool(i.uncertain)),
        ("uncertainty_reason"@, jopt_v(i.uncertainty_reason)), ("proposed_status"@, jopt_v(i.proposed_status)),
        ("proposed_priority"@, jopt_v(i.proposed_priority)), ("parent_item_id"@, jopt_v(i.parent_item_id)),
        ("initial_marker"@, jopt_v(i.initial_marker))])
}

/// The number of uncertain items.
pub open spec fn uncertain_count(s: Seq<ExtractedView>) -> nat {
    s.filter(|i: ExtractedView| i.uncertain).len()
}

/// The event of a completed extraction: the items, their number, how many
/// are uncertain, and the source file.
pub open spec fn extracted_event(items: Seq<ExtractedView>, source_file: Option<Seq<char>>) -> EventSpec {
    ("ItemsExtracted"@, seq![("items"@, JView::List(items.map_values(|i: ExtractedView| item_json(i)))),
        ("item_count"@, JView::Num(items.len() as u64)), ("uncertain_count"@, JView::Num(uncertain_count(items) as u64)),
        ("source_file"@, jopt_v(source_file))])
}

/// The JSON object of an extracted item.
fn item_to_json(i: &ExtractedItem) -> (r: Json)
    ensures
        jv(r) == item_json(i@),
{
    let mut fields = payload7("item_id", js(i.item_id.as_str()), "item_type", js(i.item_type.as_str()),
        "description", js(i.description.as_str()), "uncertain", Json::Bool(i.uncertain),
        "uncertainty_reason", jo(&i.uncertainty_reason), "proposed_status", jo(&i.proposed_status),
        "proposed_priority", jo(&i.proposed_priority));
    add_field(&mut fields, "parent_item_id", jo(&i.parent_item_id));
    add_field(&mut fields, "initial_marker", jo(&i.initial_marker));
    let ghost fv = pv(fields@);
    let r = Json::Obj(fields);
    proof {
        match jv(r) {
            JView::Obj(x) => {
                assert(x =~= fv);
                assert(fv =~= seq![("item_id"@, JView::Str(i@.item_id)), ("item_type"@, JView::Str(i@.item_type)),
                    ("description"@, JView::Str(i@.description)), ("uncertain"@, JView::Bool(i@.uncertain)),
                    ("uncertainty_reason"@, jopt_v(i@.uncertainty_reason)), ("proposed_status"@, jopt_v(i@.proposed_status)),
                    ("proposed_priority"@, jopt_v(i@.proposed_priority)), ("parent_item_id"@, jopt_v(i@.parent_item_id)),
                    ("initial_marker"@, jopt_v(i@.initial_marker))]);
            },
            _ => {},
        }
    }
    r
}

/// Records the items extracted from a text, or, when there are none, that
/// the text held nothing to extract. Returns whether there were items.
pub fn record_extraction(items: &Vec<ExtractedItem>, source_text: &str, source_file: Option<&str>, cid: &str,
    outbox: &mut Vec<OutEvent>) -> (r: bool)
    ensures
        r == (items.len() > 0),
        r ==> appended(old(outbox)@, final(outbox)@, pm_module(), cid@, seq![extracted_event(extracted_view(items@),
            opt_str_view(source_file))]),
        !r ==> appended(old(outbox)@, final(outbox)@, pm_module(), cid@, seq![("ExtractionFailedNoContent"@,
            seq![("failure_reason"@, JView::Str("no_extractable_content"@)), ("source_text_length"@, JView::Num(source_text.len() as u64))])]),
{
    if items.len() == 0 {
        emit_pm(outbox, "ExtractionFailedNoContent", cid,
            payload2("failure_reason", js("no_extractable_content"), "source_text_length", Json::Num(source_text.len() as u64)));
        return false;
    }
    let ghost iv = extracted_view(items@);
    let mut vals: Vec<Json> = Vec::new();
    let mut uncertain: u64 = 0;
    for k in 0..items.len()
        invariant
            iv == extracted_view(items@),
            vals.len() == k,
            forall|m: int| 0 <= m < k ==> jv(#[trigger] vals@[m]) == item_json(iv[m]),
            uncertain == uncertain_count(iv.take(k as int)),
            uncertain <= k,
    {
        proof {
            assert(iv.take(k + 1).drop_last() =~= iv.take(k as int));
            reveal(Seq::filter);
        }
        vals.push(item_to_json(&items[k]));
        if items[k].uncertain {
            uncertain = uncertain + 1;
        }
    }
    proof { assert(iv.take(items.len() as int) =~= iv); }
    let lst = Json::List(vals);
    proof {
        match jv(lst) {
            JView::List(x) => { assert(x =~= iv.map_values(|i: ExtractedView| item_json(i))); },
            _ => {},
        }
    }
    let sf = crate::record::own(source_file);
    let payload = payload4("items", lst, "item_count", Json::Num(items.len() as u64), "uncertain_count", Json::Num(uncertain),
        "source_file", jo(&sf));
    proof { assert(("ItemsExtracted"@, pv(payload@)) == extracted_event(iv, opt_str_view(source_file))); }
    emit_pm(outbox, "ItemsExtracted", cid, payload);
    true
}

/// A confirmation answer accepts: trimmed and in lower case it is `y` or
/// `yes`.
pub open spec fn accepts(answer: Seq<char>) -> bool {
    lowercase(trim(answer)) == "y"@ || lowercase(trim(answer)) == "yes"@
}

/// Whether the answer to the confirmation question accepts the items.
pub fn confirmation_answer(answer: &str) -> (r: bool)
    ensures
        r == accepts(answer@),
{
    let v = chars_of(answer);
    proof { assert(v@.subrange(0, v.len() as int) =~= answer@); }
    let (a, b) = trim_bounds(&v, 0, v.len());
    let t = string_of(&v, a, b);
    let low = str_to_lowercase(t.as_str());
    str_eq(low.as_str(), "y") || str_eq(low.as_str(), "yes")
}

/// The identifiers of the items.
pub open spec fn item_ids(items: Seq<ExtractedView>) -> Seq<Seq<char>> {
    items.map_values(|i: ExtractedView| i.item_id)
}

/// Records whether the extracted items were confirmed (all of them
/// accepted) or rejected.
pub fn record_decision(items: &Vec<ExtractedItem>, confirmed: bool, cid: &str, outbox: &mut Vec<OutEvent>)
    ensures
        confirmed ==> appended(old(outbox)@, final(outbox)@, pm_module(), cid@, seq![("ExtractionConfirmed"@,
            seq![("accepted_item_ids"@, crate::ontology::str_list(item_ids(extracted_view(items@)))),
                ("accepted_count"@, JView::Num(items.len() as u64))])]),
        !confirmed ==> appended(old(outbox)@, final(outbox)@, pm_module(), cid@, seq![("ExtractionRejected"@, Seq::empty())]),
{
    if confirmed {
        let mut ids: Vec<String> = Vec::new();
        for k in 0..items.len()
            invariant
                views(ids@) == item_ids(extracted_view(items@)).take(k as int),
        {
            let ghost before = views(ids@);
            ids.push(items[k].item_id.clone());
            proof {
                assert(views(ids@) =~= before.push(items@[k as int].item_id@));
                assert(item_ids(extracted_view(items@)).take(k + 1) =~= item_ids(extracted_view(items@)).take(k as int).push(items@[k as int].item_id@));
            }
        }
        proof { assert(item_ids(extracted_view(items@)).take(items.len() as int) =~= item_ids(extracted_view(items@))); }
        let n = ids.len();
        emit_pm(outbox, "ExtractionConfirmed", cid, payload2("accepted_item_ids", jlist(&ids), "accepted_count", Json::Num(n as u64)));
    } else {
        let empty: Vec<(String, Json)> = Vec::new();
        proof { assert(pv(empty@) =~= Seq::<(Seq<char>, JView)>::empty()); }
        emit_pm(outbox, "ExtractionRejected", cid, empty);
    }
}

// ─── Folder scans ─────────────────────────────────────────────────────────────

/// Records the request to scan a folder.
pub fn begin_folder_scan(folder_path: &str, auto_confirm: bool, cid: &str, outbox: &mut Vec<OutEvent>)
    ensures
        appended(old(outbox)@, final(outbox)@, pm_module(), cid@, seq![("FolderScanRequested"@,
            seq![("folder_path"@, JView::Str(folder_path@)), ("auto_confirm"@, JView::Bool(auto_confirm))])]),
{
    emit_pm(outbox, "FolderScanRequested", cid, payload2("folder_path", js(folder_path), "auto_confirm", Json::Bool(auto_confirm)));
}

/// Records that the folder to scan does not exist.
pub fn folder_not_found(folder_path: &str, cid: &str, outbox: &mut Vec<OutEvent>)
    ensures
        appended(old(outbox)@, final(outbox)@, pm_module(), cid@, seq![("ExtractionFailedFolderNotFound"@,
            seq![("failure_reason"@, JView::Str("folder_not_found"@)), ("folder_path"@, JView::Str(folder_path@))])]),
{
    emit_pm(outbox, "ExtractionFailedFolderNotFound", cid, payload2("failure_reason", js("folder_not_found"), "folder_path", js(folder_path)));
}

/// A file name a folder scan takes: it ends in `.md` or `.txt`.
pub open spec fn eligible_name(name: Seq<char>) -> bool {
    crate::ontology::ends_with(name, ".md"@) || crate::ontology::ends_with(name, ".txt"@)
}

/// The files a folder scan takes, in sorted order.
pub open spec fn eligible_files(names: Seq<Seq<char>>) -> Seq<Seq<char>> {
    names.filter(|n: Seq<char>| eligible_name(n)).sort_by(seq_leq())
}

/// Whether a name ends with the suffix.
fn name_ends_with(name: &str, suffix: &str) -> (r: bool)
    ensures
        r == crate::ontology::ends_with(name@, suffix@),
{
    let v = chars_of(name);
    let m = suffix.unicode_len();
    if m > v.len() {
        return false;
    }
    let r = has_prefix(&v, v.len() - m, v.len(), suffix);
    proof {
        assert(v@.subrange(v.len() - m, v.len() as int) =~= name@.skip(name@.len() - m));
        assert(v@.subrange(v.len() - m, v.len() as int).take(m as int) =~= v@.subrange(v.len() - m, v.len() as int));
    }
    r
}

/// Whether a folder scan takes a file of this name.
pub fn is_eligible_name(name: &str) -> (r: bool)
    ensures
        r == eligible_name(name@),
{
    name_ends_with(name, ".md") || name_ends_with(name, ".txt")
}

/// The names of the files a folder scan takes, sorted.
pub fn eligible_file_names(names: &Vec<String>) -> (r: Vec<String>)
    ensures
        views(r@) == eligible_files(views(names@)),
{
    let ghost nv = views(names@);
    let ghost p = |n: Seq<char>| eligible_name(n);
    let mut kept: Vec<String> = Vec::new();
    for i in 0..names.len()
        invariant
            nv == views(names@),
            p == (|n: Seq<char>| eligible_name(n)),
            views(kept@) == nv.take(i as int).filter(p),
    {
        proof {
            assert(nv.take(i + 1).drop_last() =~= nv.take(i as int));
            assert(nv.take(i + 1).last() == names@[i as int]@);
            reveal(Seq::filter);
        }
        let ok = is_eligible_name(names[i].as_str());
        let ghost before = views(kept@);
        if ok {
            kept.push(names[i].clone());
            proof { assert(views(kept@) =~= before.push(names@[i as int]@)); }
        }
    }
    proof { assert(nv.take(names.len() as int) =~= nv); }
    sort_strings(&kept)
}

/// The counts of a folder scan: files found, skipped and processed.
pub struct FolderScan {
    pub found: usize,
    pub skipped: usize,
    pub processed: usize,
}

impl FolderScan {
    /// Every file is counted at most once.
    pub open spec fn wf(&self) -> bool {
        self.skipped + self.processed <= self.found
    }

    /// A scan of `found` eligible files, none looked at yet.
    pub fn new(found: usize) -> (r: FolderScan)
        ensures
            r.wf(),
            r.found == found && r.skipped == 0 && r.processed == 0,
    {
        FolderScan { found, skipped: 0, processed: 0 }
    }

    /// Whether the file was extracted already (then it is skipped).
    pub fn skip_if_processed(&mut self, filename: &str, processed: &Vec<String>) -> (r: bool)
        requires
            old(self).wf(),
            old(self).skipped + old(self).processed < old(self).found,
        ensures
            final(self).wf(),
            r == views(processed@).contains(filename@),
            final(self).found == old(self).found,
            final(self).processed == old(self).processed,
            final(self).skipped == old(self).skipped + if r { 1usize } else { 0usize },
    {
        let done = contains_str(processed, filename);
        proof {
            if done {
                let k = choose|k: int| 0 <= k < processed.len() && (#[trigger] processed@[k])@ == filename@;
                assert(views(processed@)[k] == filename@);
            } else {
                assert forall|k: int| 0 <= k < views(processed@).len() implies views(processed@)[k] != filename@ by {
                    assert(views(processed@)[k] == processed@[k]@);
                }
            }
        }
        if done {
            self.skipped = self.skipped + 1;
        }
        done
    }

    /// Whether a file's content (none when it could not be read) is worth
    /// extracting: it was read and is not blank. A file that is not is
    /// skipped.
    pub fn take_content(&mut self, content: Option<&str>) -> (r: bool)
        requires
            old(self).wf(),
            old(self).skipped + old(self).processed < old(self).found,
        ensures
            final(self).wf(),
            r == (content matches Some(c) && trim(c@).len() > 0),
            final(self).found == old(self).found,
            final(self).processed == old(self).processed,
            final(self).skipped == old(self).skipped + if r { 0usize } else { 1usize },
    {
        let ok = match content {
            Some(c) => {
                let v = chars_of(c);
                proof { assert(v@.subrange(0, v.len() as int) =~= c@); }
                let (a, b) = trim_bounds(&v, 0, v.len());
                a < b
            },
            None => false,
        };
        if !ok {
            self.skipped = self.skipped + 1;
        }
        ok
    }

    /// Counts a file as processed.
    pub fn count_processed(&mut self)
        requires
            old(self).wf(),
            old(self).skipped + old(self).processed < old(self).found,
        ensures
            final(self).wf(),
            final(self).found == old(self).found,
            final(self).skipped == old(self).skipped,
            final(self).processed == old(self).processed + 1,
    {
        self.processed = self.processed + 1;
    }

    /// No file was new: none processed and every one skipped.
    pub fn nothing_new(&self) -> (r: bool)
        ensures
            r == (self.processed == 0 && self.skipped == self.found),
    {
        self.processed == 0 && self.skipped == self.found
    }
}

/// Records the end of a folder scan with its counts.
pub fn folder_scan_completed(folder_path: &str, scan: &FolderScan, cid: &str, outbox: &mut Vec<OutEvent>)
    ensures
        appended(old(outbox)@, final(outbox)@, pm_module(), cid@, seq![("FolderScanCompleted"@,
            seq![("folder_path"@, JView::Str(folder_path@)), ("files_found"@, JView::Num(scan.found as u64)),
                ("files_skipped"@, JView::Num(scan.skipped as u64)), ("files_processed"@, JView::Num(scan.processed as u64))])]),
{
    emit_pm(outbox, "FolderScanCompleted", cid, payload4("folder_path", js(folder_path), "files_found", Json::Num(scan.found as u64),
        "files_skipped", Json::Num(scan.skipped as u64), "files_processed", Json::Num(scan.processed as u64)));
}

// ─── Confirmed extractions ────────────────────────────────────────────────────

/// The record item an extracted item becomes once session `sid` confirms it.
pub open spec fn confirmed_item(sid: Seq<char>) -> spec_fn(ExtractedView) -> crate::record::ItemView {
    |i: ExtractedView| crate::record::ItemView {
        item_id: i.item_id,
        item_type: i.item_type,
        description: i.description,
        uncertain: i.uncertain,
        uncertainty_reason: i.uncertainty_reason,
        session_id: sid,
        parent_item_id: i.parent_item_id,
        current_marker: None,
    }
}

/// What a value's view says of it as a string or a flag.
proof fn lemma_view_scalar(v: Json)
    ensures
        jv(v) matches JView::Str(s) ==> crate::payload::as_str(v) == Some(s),
        jv(v) == JView::Null ==> crate::payload::as_str(v) is None,
        jv(v) matches JView::Bool(b) ==> crate::payload::as_bool(v) == Some(b),
{
    match v {
        Json::Str(t) => {},
        _ => {},
    }
}

/// An extracted item's record, read back, is the item as confirmed in
/// session `sid` when its identifier is accepted.
proof fn lemma_confirmed_entry(x: Json, it: ExtractedView, sid: Seq<char>, ids: Seq<Seq<char>>)
    requires
        jv(x) == item_json(it),
        ids.contains(it.item_id),
    ensures
        crate::record::record_of_entry(sid, ids)(x) == Some(confirmed_item(sid)(it)),
{
    reveal_strlit("item_id");
    reveal_strlit("item_type");
    reveal_strlit("description");
    reveal_strlit("uncertain");
    reveal_strlit("uncertainty_reason");
    reveal_strlit("proposed_status");
    reveal_strlit("proposed_priority");
    reveal_strlit("parent_item_id");
    let f = seq![("item_id"@, JView::Str(it.item_id)), ("item_type"@, JView::Str(it.item_type)),
        ("description"@, JView::Str(it.description)), ("uncertain"@, JView::Bool(it.uncertain)),
        ("uncertainty_reason"@, jopt_v(it.uncertainty_reason)), ("proposed_status"@, jopt_v(it.proposed_status)),
        ("proposed_priority"@, jopt_v(it.proposed_priority)), ("parent_item_id"@, jopt_v(it.parent_item_id)),
        ("initial_marker"@, jopt_v(it.initial_marker))];
    assert(item_json(it) == JView::Obj(f));
    let ks = seq!["item_id"@, "item_type"@, "description"@, "uncertain"@, "uncertainty_reason"@, "proposed_status"@,
        "proposed_priority"@, "parent_item_id"@];
    assert(ks[0].len() == 7 && ks[1].len() == 9 && ks[2].len() == 11 && ks[3].len() == 9 && ks[4].len() == 18
        && ks[5].len() == 15 && ks[6].len() == 17 && ks[7].len() == 14);
    assert(ks[3][0] != ks[1][0]);
    assert forall|j: int| 0 <= j < 8 implies (#[trigger] f[j]).0 == ks[j] by {}
    assert forall|j: int| 0 <= j < 1 implies (#[trigger] f[j]).0 != f[1].0 by { assert(f[j].0 == ks[j]); }
    assert forall|j: int| 0 <= j < 2 implies (#[trigger] f[j]).0 != f[2].0 by { assert(f[j].0 == ks[j]); }
    assert forall|j: int| 0 <= j < 3 implies (#[trigger] f[j]).0 != f[3].0 by { assert(f[j].0 == ks[j]); }
    assert forall|j: int| 0 <= j < 4 implies (#[trigger] f[j]).0 != f[4].0 by { assert(f[j].0 == ks[j]); }
    assert forall|j: int| 0 <= j < 7 implies (#[trigger] f[j]).0 != f[7].0 by { assert(f[j].0 == ks[j]); }
    crate::payload::lemma_vget_at(f, 0);
    crate::payload::lemma_vget_at(f, 1);
    crate::payload::lemma_vget_at(f, 2);
    crate::payload::lemma_vget_at(f, 3);
    crate::payload::lemma_vget_at(f, 4);
    crate::payload::lemma_vget_at(f, 7);
    crate::payload::lemma_get_view(x, "item_id"@);
    crate::payload::lemma_get_view(x, "item_type"@);
    crate::payload::lemma_get_view(x, "description"@);
    crate::payload::lemma_get_view(x, "uncertain"@);
    crate::payload::lemma_get_view(x, "uncertainty_reason"@);
    crate::payload::lemma_get_view(x, "parent_item_id"@);
    lemma_view_scalar(get(x, "item_id"@));
    lemma_view_scalar(get(x, "item_type"@));
    lemma_view_scalar(get(x, "description"@));
    lemma_view_scalar(get(x, "uncertain"@));
    lemma_view_scalar(get(x, "uncertainty_reason"@));
    lemma_view_scalar(get(x, "parent_item_id"@));
}

/// The session events of one type, pushed after others.
proof fn lemma_last_two(events: Seq<Json>, j1: Json, j2: Json, sid: Seq<char>, t1: Seq<char>, t2: Seq<char>)
    requires
        str_of(j1, "correlation_id"@) == Some(sid),
        str_of(j1, "event_type"@) == Some(t1),
        str_of(j2, "correlation_id"@) == Some(sid),
        str_of(j2, "event_type"@) == Some(t2),
        t1 != t2,
    ensures
        crate::record::last_session_event(events.push(j1).push(j2), sid, t1) == Some(j1),
        crate::record::last_session_event(events.push(j1).push(j2), sid, t2) == Some(j2),
{
    crate::record::lemma_filter_map_push(events, j1, crate::record::session_event_of(sid, t1));
    crate::record::lemma_filter_map_push(events.push(j1), j2, crate::record::session_event_of(sid, t1));
    crate::record::lemma_filter_map_push(events, j1, crate::record::session_event_of(sid, t2));
    crate::record::lemma_filter_map_push(events.push(j1), j2, crate::record::session_event_of(sid, t2));
}

/// Confirming an extraction makes its items the items of the session: once
/// the log holds the record of the `ItemsExtracted` event of an extraction,
/// then that of the `ExtractionConfirmed` event that accepts them (both
/// under the session's identifier), the confirmed items of the session are
/// the extracted items, in order.
pub proof fn law_confirmed_extraction_is_session(events: Seq<Json>, ev1: OutEvent, j1: Json, ev2: OutEvent, j2: Json,
    items: Seq<ExtractedView>, source_file: Option<Seq<char>>, sid: Seq<char>)
    requires
        ev_is(ev1, "ItemsExtracted"@, pm_module(), sid, extracted_event(items, source_file).1),
        logs(j1, ev1),
        ev_is(ev2, "ExtractionConfirmed"@, pm_module(), sid, seq![("accepted_item_ids"@,
            crate::ontology::str_list(item_ids(items))), ("accepted_count"@, JView::Num(items.len() as u64))]),
        logs(j2, ev2),
    ensures
        crate::record::session_items(events.push(j1).push(j2), sid) == items.map_values(confirmed_item(sid)),
{
    reveal_strlit("ItemsExtracted");
    reveal_strlit("ExtractionConfirmed");
    reveal_strlit("items");
    reveal_strlit("accepted_item_ids");
    assert("ItemsExtracted"@[0] != "ExtractionConfirmed"@[0]);
    lemma_last_two(events, j1, j2, sid, "ItemsExtracted"@, "ExtractionConfirmed"@);
    let f1 = extracted_event(items, source_file).1;
    let p1 = get(j1, "payload"@);
    assert(jv(p1) == JView::Obj(f1)) by {
        match jv(p1) {
            JView::Obj(g) => { assert(g =~= pv(ev1.payload@)); },
            _ => {},
        }
    }
    crate::payload::lemma_vget_at(f1, 0);
    crate::payload::lemma_get_view(p1, "items"@);
    let vitems = get(p1, "items"@);
    crate::payload::lemma_list_view(vitems);
    let entries = as_array(vitems).unwrap();
    let f2 = seq![("accepted_item_ids"@, crate::ontology::str_list(item_ids(items))), ("accepted_count"@, JView::Num(items.len() as u64))];
    let p2 = get(j2, "payload"@);
    assert(jv(p2) == JView::Obj(f2)) by {
        match jv(p2) {
            JView::Obj(g) => { assert(g =~= pv(ev2.payload@)); },
            _ => {},
        }
    }
    crate::payload::lemma_vget_at(f2, 0);
    crate::payload::lemma_get_view(p2, "accepted_item_ids"@);
    let vacc = get(p2, "accepted_item_ids"@);
    crate::payload::lemma_list_view(vacc);
    let acc = as_array(vacc).unwrap();
    let ids = item_ids(items);
    assert forall|i: int| 0 <= i < acc.len() implies #[trigger] crate::payload::as_str(acc[i]) == Some(ids[i]) by {
        lemma_view_scalar(acc[i]);
    }
    crate::seqs::lemma_filter_map_all(acc, |v: Json| crate::payload::as_str(v), ids);
    assert(crate::record::accepted_ids(events.push(j1).push(j2), sid) == Some(ids));
    let g = crate::record::record_of_entry(sid, ids);
    let want = items.map_values(confirmed_item(sid));
    assert forall|i: int| 0 <= i < entries.len() implies #[trigger] g(entries[i]) == Some(want[i]) by {
        assert(ids[i] == items[i].item_id);
        lemma_confirmed_entry(entries[i], items[i], sid, ids);
    }
    crate::seqs::lemma_filter_map_all(entries, g, want);
}

} // verus!
