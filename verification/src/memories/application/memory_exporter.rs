//! Exports a user's memories as markdown or JSON: readable, greppable and
//! portable.
use crate::json::{
    field_of, fields_upto, json_pretty, json_tree, list_in, list_value, object_value, pretty_document,
    text_in, text_list, text_value, JsonTree,
};
use crate::memories::domain::memory::{Memory, MemoryView};
use crate::memories::domain::recall_ranker::memory_views;
use crate::shared::error::{RaError, Result};
use crate::text::{
    comes_before, debug_text, decimal, decimal_text, each_part_is_had, flat, flatten, has_part,
    having_parts_is_transitive, join, joined, parts_are_had, parts_of_parts_are_had, quote, same_text, text_before, texts,
};
use vstd::prelude::*;
use vstd::string::StringExecFns;

verus! {

#[derive(Debug, Clone, Copy, PartialEq, Eq, Structural)]
pub enum ExportFormat {
    Markdown,
    Json,
}

/// A name added to a sorted list of names, once.
pub open spec fn with_name(names: Seq<Seq<char>>, name: Seq<char>) -> Seq<Seq<char>>
    decreases names.len(),
{
    if names.len() == 0 {
        seq![name]
    } else if names[0] == name {
        names
    } else if text_before(name, names[0]) {
        seq![name] + names
    } else {
        seq![names[0]] + with_name(names.drop_first(), name)
    }
}

/// The names of the categories of a list of memories, sorted.
pub open spec fn category_names(memories: Seq<MemoryView>) -> Seq<Seq<char>>
    decreases memories.len(),
{
    if memories.len() == 0 {
        Seq::empty()
    } else {
        with_name(category_names(memories.drop_last()), memories.last().category.name())
    }
}

/// What stands behind a memory: its day, its tags, whether it was replaced.
pub open spec fn export_notes(memory: MemoryView) -> Seq<Seq<char>> {
    seq![memory.created_at.day()] + (if memory.tags.len() == 0 {
        Seq::empty()
    } else {
        seq![joined(memory.tags, ", "@)]
    }) + (if memory.is_superseded() {
        seq!["superseded"@]
    } else {
        Seq::empty()
    })
}

/// A memory's line.
pub open spec fn export_line(memory: MemoryView) -> Seq<char> {
    "- "@ + flat(memory.content) + "  _("@ + joined(export_notes(memory), " \u{b7} "@) + ")_\n"@
}

/// The lines of the memories under a category's name, in order.
pub open spec fn export_lines(memories: Seq<MemoryView>, name: Seq<char>) -> Seq<char>
    decreases memories.len(),
{
    if memories.len() == 0 {
        Seq::empty()
    } else {
        let earlier = export_lines(memories.drop_last(), name);
        if memories.last().category.name() == name {
            earlier + export_line(memories.last())
        } else {
            earlier
        }
    }
}

/// The sections of the first `n` categories.
pub open spec fn export_sections(memories: Seq<MemoryView>, names: Seq<Seq<char>>, n: nat) -> Seq<
    char,
>
    decreases n,
{
    if n == 0 {
        Seq::empty()
    } else {
        export_sections(memories, names, (n - 1) as nat) + ("\n## "@ + names[n - 1] + "\n\n"@
            + export_lines(memories, names[n - 1]))
    }
}

/// The export as markdown: grouped by category, so that it reads like a
/// profile.
pub open spec fn markdown(handle: Seq<char>, memories: Seq<MemoryView>) -> Seq<char> {
    "# RecordAgent memories: "@ + handle + "\n\n"@ + decimal(memories.len()) + " memories\n"@
        + export_sections(memories, category_names(memories), category_names(memories).len())
}

/// A memory as a JSON document; its confidence, a fraction, is given.
pub open spec fn memory_tree(memory: MemoryView, confidence: JsonTree) -> JsonTree {
    JsonTree::Object(
        Map::<Seq<char>, JsonTree>::empty().insert("id"@, JsonTree::Text(memory.id.text())).insert(
            "content"@,
            JsonTree::Text(memory.content),
        ).insert("category"@, JsonTree::Text(memory.category.name())).insert(
            "tags"@,
            text_list(memory.tags),
        ).insert("confidence"@, confidence).insert(
            "created_at"@,
            JsonTree::Text(memory.created_at.text()),
        ).insert("updated_at"@, JsonTree::Text(memory.updated_at.text())).insert(
            "superseded_by"@,
            match memory.superseded_by {
                Some(id) => JsonTree::Text(id.text()),
                None => JsonTree::Null,
            },
        ),
    )
}

/// The export as a JSON document.
pub open spec fn export_tree(
    memories: Seq<MemoryView>,
    confidences: Seq<serde_json::Value>,
) -> JsonTree {
    JsonTree::Object(
        Map::<Seq<char>, JsonTree>::empty().insert(
            "memories"@,
            JsonTree::List(
                Seq::new(
                    memories.len(),
                    |i: int| memory_tree(memories[i], json_tree(confidences[i])),
                ),
            ),
        ),
    )
}

fn add_name(names: Vec<String>, name: &str) -> (all: Vec<String>)
    ensures
        texts(all@) == with_name(texts(names@), name@),
{
    let mut all = names;
    let ghost old_names = texts(names@);
    let mut i: usize = 0;
    assert(old_names.skip(0) =~= old_names);
    while i < all.len()
        invariant
            0 <= i <= all@.len(),
            all == names,
            old_names == texts(names@),
            with_name(old_names, name@) == old_names.take(i as int) + with_name(
                old_names.skip(i as int),
                name@,
            ),
        decreases all@.len() - i,
    {
        proof {
            assert(old_names.skip(i as int)[0] == all@[i as int]@);
            assert(old_names.skip(i as int).drop_first() =~= old_names.skip(i + 1));
        }
        if same_text(all[i].as_str(), name) {
            assert(old_names.take(i as int) + old_names.skip(i as int) =~= old_names);
            return all;
        }
        if comes_before(name, all[i].as_str()) {
            all.insert(i, name.to_owned());
            proof {
                assert(texts(all@) =~= old_names.take(i as int) + (seq![name@] + old_names.skip(
                    i as int,
                )));
            }
            return all;
        }
        proof {
            assert(old_names.take(i + 1) + with_name(old_names.skip(i + 1), name@)
                =~= old_names.take(i as int) + (seq![old_names[i as int]] + with_name(
                old_names.skip(i + 1),
                name@,
            )));
        }
        i += 1;
    }
    all.push(name.to_owned());
    proof {
        assert(old_names.skip(old_names.len() as int) =~= Seq::empty());
        assert(texts(all@) =~= old_names.take(old_names.len() as int) + seq![name@]);
    }
    all
}

fn names_of(memories: &Vec<Memory>) -> (names: Vec<String>)
    ensures
        texts(names@) == category_names(memory_views(memories@)),
{
    let mut names: Vec<String> = Vec::new();
    let ghost all = memory_views(memories@);
    let mut i: usize = 0;
    assert(all.take(0) =~= Seq::empty());
    assert(texts(names@) =~= Seq::empty());
    while i < memories.len()
        invariant
            0 <= i <= memories@.len(),
            all == memory_views(memories@),
            texts(names@) == category_names(all.take(i as int)),
        decreases memories@.len() - i,
    {
        proof {
            assert(all.take(i + 1).drop_last() =~= all.take(i as int));
            assert(all.take(i + 1).last() == memories@[i as int]@);
        }
        names = add_name(names, memories[i].category().as_str());
        i += 1;
    }
    assert(all.take(all.len() as int) =~= all);
    names
}

fn line_text(memory: &Memory) -> (line: String)
    ensures
        line@ == export_line(memory@),
{
    let mut notes: Vec<String> = Vec::new();
    notes.push(memory.created_at().day_label());
    if memory.tags().len() > 0 {
        notes.push(join(memory.tags(), ", "));
    }
    if memory.is_superseded() {
        notes.push("superseded".to_owned());
    }
    assert(texts(notes@) =~= export_notes(memory@));
    let mut line = "- ".to_owned();
    line.append(flatten(memory.content()).as_str());
    line.append("  _(");
    line.append(join(&notes, " \u{b7} ").as_str());
    line.append(")_\n");
    line
}

/// The export as markdown, one memory per line.
pub fn render_markdown(handle: &str, memories: &Vec<Memory>) -> (text: String)
    ensures
        text@ == markdown(handle@, memory_views(memories@)),
{
    let mut output = "# RecordAgent memories: ".to_owned();
    output.append(handle);
    output.append("\n\n");
    output.append(decimal_text(memories.len() as u64).as_str());
    output.append(" memories\n");
    let ghost start = output@;
    let ghost all = memory_views(memories@);
    let names = names_of(memories);
    let ghost titles = category_names(all);
    let mut n: usize = 0;
    assert(start + Seq::<char>::empty() =~= start);
    while n < names.len()
        invariant
            0 <= n <= names@.len(),
            all == memory_views(memories@),
            titles == category_names(all),
            texts(names@) == titles,
            output@ == start + export_sections(all, titles, n as nat),
        decreases names@.len() - n,
    {
        assert(titles[n as int] == names@[n as int]@);
        let mut section = "\n## ".to_owned();
        section.append(names[n].as_str());
        section.append("\n\n");
        let ghost head = section@;
        let mut i: usize = 0;
        assert(all.take(0) =~= Seq::empty());
        assert(head + Seq::<char>::empty() =~= head);
        while i < memories.len()
            invariant
                0 <= i <= memories@.len(),
                n < names@.len(),
                all == memory_views(memories@),
                section@ == head + export_lines(all.take(i as int), names@[n as int]@),
            decreases memories@.len() - i,
        {
            proof {
                assert(all.take(i + 1).drop_last() =~= all.take(i as int));
                assert(all.take(i + 1).last() == memories@[i as int]@);
            }
            if same_text(memories[i].category().as_str(), names[n].as_str()) {
                let line = line_text(&memories[i]);
                let ghost before = export_lines(all.take(i as int), names@[n as int]@);
                section.append(line.as_str());
                assert(head + (before + line@) =~= head + before + line@);
            }
            i += 1;
        }
        proof {
            assert(all.take(all.len() as int) =~= all);
            let before = export_sections(all, titles, n as nat);
            assert(start + (before + section@) =~= start + before + section@);
        }
        output.append(section.as_str());
        n += 1;
    }
    output
}

fn tags_value(tags: &Vec<String>) -> (value: serde_json::Value)
    ensures
        json_tree(value) == text_list(texts(tags@)),
{
    let mut items: Vec<serde_json::Value> = Vec::new();
    let mut i: usize = 0;
    while i < tags.len()
        invariant
            0 <= i <= tags@.len(),
            items@.len() == i,
            forall|j: int|
                0 <= j < i ==> json_tree(#[trigger] items@[j]) == JsonTree::Text(tags@[j]@),
        decreases tags@.len() - i,
    {
        items.push(text_value(tags[i].as_str()));
        i += 1;
    }
    proof {
        assert(crate::json::json_trees(items@) =~= texts(tags@).map_values(
            |t: Seq<char>| JsonTree::Text(t),
        ));
    }
    list_value(items)
}

fn memory_value(memory: &Memory, confidence: serde_json::Value) -> (value: serde_json::Value)
    ensures
        json_tree(value) == memory_tree(memory@, json_tree(confidence)),
{
    let mut fields: Vec<(String, serde_json::Value)> = Vec::new();
    fields.push(("id".to_owned(), text_value(memory.id().to_text().as_str())));
    fields.push(("content".to_owned(), text_value(memory.content())));
    fields.push(("category".to_owned(), text_value(memory.category().as_str())));
    fields.push(("tags".to_owned(), tags_value(memory.tags())));
    fields.push(("confidence".to_owned(), confidence));
    fields.push(("created_at".to_owned(), text_value(memory.created_at().to_text().as_str())));
    fields.push(("updated_at".to_owned(), text_value(memory.updated_at().to_text().as_str())));
    let replaced = match memory.superseded_by() {
        Some(id) => text_value(id.to_text().as_str()),
        None => crate::json::null_value(),
    };
    fields.push(("superseded_by".to_owned(), replaced));
    proof {
        reveal_with_fuel(fields_upto, 9);
    }
    object_value(fields)
}

/// The export as JSON. A confidence is a fraction, so its JSON form is given
/// beside each memory.
pub fn render_json(memories: &Vec<Memory>, confidences: Vec<serde_json::Value>) -> (text: String)
    requires
        confidences@.len() == memories@.len(),
    ensures
        text@ == json_pretty(export_tree(memory_views(memories@), confidences@)),
{
    let ghost all = memory_views(memories@);
    let mut items: Vec<serde_json::Value> = Vec::new();
    let mut i: usize = 0;
    while i < memories.len()
        invariant
            0 <= i <= memories@.len(),
            confidences@.len() == memories@.len(),
            all == memory_views(memories@),
            items@.len() == i,
            forall|j: int|
                0 <= j < i ==> json_tree(#[trigger] items@[j]) == memory_tree(
                    all[j],
                    json_tree(confidences@[j]),
                ),
        decreases memories@.len() - i,
    {
        items.push(memory_value(&memories[i], crate::json::copy_document(&confidences[i])));
        i += 1;
    }
    proof {
        assert(crate::json::json_trees(items@) =~= Seq::new(
            all.len(),
            |i: int| memory_tree(all[i], json_tree(confidences@[i])),
        ));
    }
    let mut fields: Vec<(String, serde_json::Value)> = Vec::new();
    fields.push(("memories".to_owned(), list_value(items)));
    proof {
        reveal_with_fuel(fields_upto, 2);
    }
    pretty_document(&object_value(fields))
}

/// The format that a request names; markdown, if it names none.
pub open spec fn format_of(name: Option<Seq<char>>) -> Option<ExportFormat> {
    match name {
        None => Some(ExportFormat::Markdown),
        Some(n) => if n == "markdown"@ || n == "md"@ {
            Some(ExportFormat::Markdown)
        } else if n == "json"@ {
            Some(ExportFormat::Json)
        } else {
            None
        },
    }
}

impl ExportFormat {
    /// The format that a request names.
    pub fn parse(name: &Option<String>) -> (format: Result<ExportFormat>)
        ensures
            match format {
                Ok(f) => format_of(crate::memories::domain::memory::option_text(*name)) == Some(f),
                Err(e) => format_of(crate::memories::domain::memory::option_text(*name)) is None
                    && e is Validation && e.text() == "unknown export format "@ + debug_text(
                    name->0@,
                ) + " (expected markdown or json)"@,
            },
    {
        match name {
            None => Ok(ExportFormat::Markdown),
            Some(n) => {
                if same_text(n.as_str(), "markdown") || same_text(n.as_str(), "md") {
                    Ok(ExportFormat::Markdown)
                } else if same_text(n.as_str(), "json") {
                    Ok(ExportFormat::Json)
                } else {
                    let mut sentence = "unknown export format ".to_owned();
                    sentence.append(quote(n.as_str()).as_str());
                    sentence.append(" (expected markdown or json)");
                    Err(RaError::Validation(sentence))
                }
            },
        }
    }

    pub open spec fn media_type(self) -> Seq<char> {
        match self {
            ExportFormat::Markdown => "text/markdown; charset=utf-8"@,
            ExportFormat::Json => "application/json"@,
        }
    }

    pub fn content_type(&self) -> (name: &'static str)
        ensures
            name@ == self.media_type(),
    {
        match self {
            ExportFormat::Markdown => "text/markdown; charset=utf-8",
            ExportFormat::Json => "application/json",
        }
    }
}

#[derive(Debug, Clone, Copy)]
pub struct MemoryExporter;

impl MemoryExporter {
    pub fn new() -> (exporter: MemoryExporter) {
        MemoryExporter
    }

    /// The export of the memories that the store listed for the user.
    pub fn execute(
        &self,
        handle: &str,
        format: ExportFormat,
        memories: &Vec<Memory>,
        confidences: Vec<serde_json::Value>,
    ) -> (text: String)
        requires
            confidences@.len() == memories@.len(),
        ensures
            text@ == (match format {
                ExportFormat::Markdown => markdown(handle@, memory_views(memories@)),
                ExportFormat::Json => json_pretty(
                    export_tree(memory_views(memories@), confidences@),
                ),
            }),
    {
        match format {
            ExportFormat::Markdown => render_markdown(handle, memories),
            ExportFormat::Json => render_json(memories, confidences),
        }
    }
}

/// Sorted, and no name twice.
pub open spec fn strictly_sorted(names: Seq<Seq<char>>) -> bool {
    forall|i: int, j: int|
        0 <= i < j < names.len() ==> text_before(#[trigger] names[i], #[trigger] names[j])
}

proof fn lemma_with_name_holds(names: Seq<Seq<char>>, name: Seq<char>, n: Seq<char>)
    ensures
        with_name(names, name).contains(n) <==> names.contains(n) || n == name,
    decreases names.len(),
{
    let all = with_name(names, name);
    if names.len() == 0 {
        assert(all[0] == name);
    } else if names[0] == name {
    } else if text_before(name, names[0]) {
        assert(all[0] == name);
        if names.contains(n) {
            let k = choose|k: int| 0 <= k < names.len() && names[k] == n;
            assert(all[k + 1] == n);
        }
        if all.contains(n) {
            let k = choose|k: int| 0 <= k < all.len() && all[k] == n;
            if k > 0 {
                assert(names[k - 1] == n);
            }
        }
    } else {
        let rest = names.drop_first();
        let tail = with_name(rest, name);
        lemma_with_name_holds(rest, name, n);
        assert(all[0] == names[0]);
        if names.contains(n) {
            let k = choose|k: int| 0 <= k < names.len() && names[k] == n;
            if k > 0 {
                assert(rest[k - 1] == n);
            }
        }
        if tail.contains(n) {
            let t = choose|t: int| 0 <= t < tail.len() && tail[t] == n;
            assert(all[t + 1] == n);
        }
        if all.contains(n) {
            let k = choose|k: int| 0 <= k < all.len() && all[k] == n;
            if k > 0 {
                assert(tail[k - 1] == n);
            }
        }
        if rest.contains(n) {
            let t = choose|t: int| 0 <= t < rest.len() && rest[t] == n;
            assert(names[t + 1] == n);
        }
    }
}

proof fn lemma_with_name_sorted(names: Seq<Seq<char>>, name: Seq<char>)
    requires
        strictly_sorted(names),
    ensures
        strictly_sorted(with_name(names, name)),
        with_name(names, name).len() > 0,
        with_name(names, name)[0] == (if names.len() == 0 || text_before(name, names[0]) {
            name
        } else {
            names[0]
        }),
    decreases names.len(),
{
    let all = with_name(names, name);
    if names.len() == 0 {
    } else if names[0] == name {
        crate::text::text_order_is_strict(name, name);
    } else if text_before(name, names[0]) {
        assert forall|i: int, j: int| 0 <= i < j < all.len() implies text_before(
            #[trigger] all[i],
            #[trigger] all[j],
        ) by {
            assert(all[j] == names[j - 1]);
            if i > 0 {
                assert(all[i] == names[i - 1]);
            } else if j > 1 {
                assert(text_before(names[0], names[j - 1]));
                crate::text::text_order_is_transitive(name, names[0], names[j - 1]);
            }
        }
    } else {
        let rest = names.drop_first();
        assert forall|i: int, j: int| 0 <= i < j < rest.len() implies text_before(
            #[trigger] rest[i],
            #[trigger] rest[j],
        ) by {
            assert(rest[i] == names[i + 1] && rest[j] == names[j + 1]);
        }
        lemma_with_name_sorted(rest, name);
        let tail = with_name(rest, name);
        crate::text::text_order_is_total(name, names[0]);
        assert(text_before(names[0], tail[0])) by {
            if rest.len() > 0 {
                assert(rest[0] == names[1]);
                assert(text_before(names[0], names[1]));
            }
        }
        assert forall|i: int, j: int| 0 <= i < j < all.len() implies text_before(
            #[trigger] all[i],
            #[trigger] all[j],
        ) by {
            assert(all[j] == tail[j - 1]);
            if i > 0 {
                assert(all[i] == tail[i - 1]);
            } else if j > 1 {
                assert(text_before(tail[0], tail[j - 1]));
                crate::text::text_order_is_transitive(names[0], tail[0], tail[j - 1]);
            }
        }
    }
}

/// The sections of an export: one for each category that a memory is in, in
/// the order of their names, none twice and none left out.
pub proof fn sections_cover_the_categories(memories: Seq<MemoryView>, name: Seq<char>)
    ensures
        strictly_sorted(category_names(memories)),
        category_names(memories).contains(name) <==> exists|i: int|
            0 <= i < memories.len() && (#[trigger] memories[i]).category.name() == name,
    decreases memories.len(),
{
    if memories.len() > 0 {
        let shorter = memories.drop_last();
        sections_cover_the_categories(shorter, name);
        lemma_with_name_sorted(category_names(shorter), memories.last().category.name());
        lemma_with_name_holds(category_names(shorter), memories.last().category.name(), name);
        if exists|i: int| 0 <= i < memories.len() && (#[trigger] memories[i]).category.name()
            == name {
            let i = choose|i: int|
                0 <= i < memories.len() && (#[trigger] memories[i]).category.name() == name;
            if i < shorter.len() {
                assert(shorter[i].category.name() == name);
            } else {
                assert(memories.last().category.name() == name);
            }
        }
        if exists|i: int| 0 <= i < shorter.len() && (#[trigger] shorter[i]).category.name()
            == name {
            let i = choose|i: int|
                0 <= i < shorter.len() && (#[trigger] shorter[i]).category.name() == name;
            assert(memories[i].category.name() == name);
        }
        if memories.last().category.name() == name {
            assert(memories[memories.len() - 1].category.name() == name);
        }
    }
}

/// The memories that belong under a category's name.
pub open spec fn under(name: Seq<char>) -> spec_fn(MemoryView) -> bool {
    |m: MemoryView| m.category.name() == name
}

/// The lines of some memories, one after the other.
pub open spec fn lines_of(memories: Seq<MemoryView>) -> Seq<char> {
    memories.map_values(|m: MemoryView| export_line(m)).flatten()
}

/// A section has a line for each memory of its category, in their order, and no
/// other line.
pub proof fn sections_have_a_line_for_each_memory(memories: Seq<MemoryView>, name: Seq<char>)
    ensures
        export_lines(memories, name) == memories.filter(under(name)).map_values(
            |m: MemoryView| export_line(m),
        ).flatten(),
    decreases memories.len(),
{
    reveal(Seq::filter);
    let f = |m: MemoryView| export_line(m);
    let kept = memories.filter(under(name));
    kept.map_values(f).lemma_flatten_and_flatten_alt_are_equivalent();
    if memories.len() > 0 {
        let shorter = memories.drop_last();
        let earlier = shorter.filter(under(name));
        sections_have_a_line_for_each_memory(shorter, name);
        earlier.map_values(f).lemma_flatten_and_flatten_alt_are_equivalent();
        if memories.last().category.name() == name {
            assert(under(name)(memories.last()));
            assert(kept.map_values(f).drop_last() =~= earlier.map_values(f));
            assert(kept.map_values(f).last() == export_line(memories.last()));
        } else {
            assert(!under(name)(memories.last()));
        }
    }
}

/// A section: its heading, and the lines of the memories of its category.
pub open spec fn section_of(memories: Seq<MemoryView>) -> spec_fn(Seq<char>) -> Seq<char> {
    |name: Seq<char>| "\n## "@ + name + "\n\n"@ + lines_of(memories.filter(under(name)))
}

proof fn lemma_sections(memories: Seq<MemoryView>, names: Seq<Seq<char>>, n: nat)
    requires
        n <= names.len(),
    ensures
        export_sections(memories, names, n) == names.take(n as int).map_values(
            section_of(memories),
        ).flatten(),
    decreases n,
{
    let f = section_of(memories);
    let parts = names.take(n as int).map_values(f);
    parts.lemma_flatten_and_flatten_alt_are_equivalent();
    if n > 0 {
        let fewer = names.take(n - 1).map_values(f);
        lemma_sections(memories, names, (n - 1) as nat);
        fewer.lemma_flatten_and_flatten_alt_are_equivalent();
        sections_have_a_line_for_each_memory(memories, names[n - 1]);
        assert(parts.drop_last() =~= fewer);
        assert(parts.last() == f(names[n - 1]));
    }
}

/// An export is a header that says how many memories there are, and behind it
/// one section for each of their categories, in the order of the names, with a
/// line for each memory of it.
pub proof fn exports_are_a_header_and_sections(handle: Seq<char>, memories: Seq<MemoryView>)
    ensures
        markdown(handle, memories) == "# RecordAgent memories: "@ + handle + "\n\n"@ + decimal(
            memories.len(),
        ) + " memories\n"@ + category_names(memories).map_values(
            |name: Seq<char>|
                "\n## "@ + name + "\n\n"@ + memories.filter(under(name)).map_values(
                    |m: MemoryView| export_line(m),
                ).flatten(),
        ).flatten(),
{
    let names = category_names(memories);
    lemma_sections(memories, names, names.len());
    assert(names.take(names.len() as int) =~= names);
    assert(names.map_values(section_of(memories)) =~= names.map_values(
        |name: Seq<char>|
            "\n## "@ + name + "\n\n"@ + memories.filter(under(name)).map_values(
                |m: MemoryView| export_line(m),
            ).flatten(),
    ));
}

/// Every memory has its line in the section of its category, and the section
/// stands in the export.
pub proof fn every_memory_is_exported(handle: Seq<char>, memories: Seq<MemoryView>, i: int)
    requires
        0 <= i < memories.len(),
    ensures
        ({
            let name = memories[i].category.name();
            let section = "\n## "@ + name + "\n\n"@ + lines_of(memories.filter(under(name)));
            &&& has_part(section, export_line(memories[i]))
            &&& has_part(markdown(handle, memories), section)
            &&& has_part(markdown(handle, memories), export_line(memories[i]))
        }),
{
    let name = memories[i].category.name();
    let names = category_names(memories);
    let f = section_of(memories);
    let nothing = Seq::<char>::empty();
    sections_cover_the_categories(memories, name);
    let k = choose|k: int| 0 <= k < names.len() && names[k] == name;
    lemma_sections(memories, names, names.len());
    assert(names.take(names.len() as int) =~= names);
    let parts = names.map_values(f);
    each_part_is_had(parts, k);
    let header = "# RecordAgent memories: "@ + handle + "\n\n"@ + decimal(memories.len())
        + " memories\n"@;
    parts_of_parts_are_had(header, parts.flatten(), nothing, parts[k]);
    assert(header + parts.flatten() + nothing =~= markdown(handle, memories));
    let kept = memories.filter(under(name));
    lemma_filter_keeps(memories, under(name), i);
    let j = choose|j: int| 0 <= j < kept.len() && kept[j] == memories[i];
    let lines = kept.map_values(|m: MemoryView| export_line(m));
    each_part_is_had(lines, j);
    let head = "\n## "@ + name + "\n\n"@;
    parts_of_parts_are_had(head, lines.flatten(), nothing, export_line(memories[i]));
    assert(head + lines.flatten() + nothing =~= parts[k]);
    having_parts_is_transitive(markdown(handle, memories), parts[k], export_line(memories[i]));
}

proof fn lemma_filter_keeps(memories: Seq<MemoryView>, p: spec_fn(MemoryView) -> bool, i: int)
    requires
        0 <= i < memories.len(),
        p(memories[i]),
    ensures
        memories.filter(p).contains(memories[i]),
    decreases memories.len(),
{
    reveal(Seq::filter);
    let shorter = memories.drop_last();
    let kept = memories.filter(p);
    if i < shorter.len() {
        lemma_filter_keeps(shorter, p, i);
        let earlier = shorter.filter(p);
        let j = choose|j: int| 0 <= j < earlier.len() && earlier[j] == memories[i];
        assert(kept[j] == memories[i]);
    } else {
        assert(kept[kept.len() - 1] == memories[i]);
    }
}

/// How many memories the first `n` sections have lines for.
pub open spec fn lines_upto(memories: Seq<MemoryView>, names: Seq<Seq<char>>, n: nat) -> nat
    decreases n,
{
    if n == 0 {
        0
    } else {
        lines_upto(memories, names, (n - 1) as nat) + memories.filter(under(names[n - 1])).len()
    }
}

proof fn lemma_one_line_more(memories: Seq<MemoryView>, names: Seq<Seq<char>>, n: nat)
    requires
        memories.len() > 0,
        n <= names.len(),
        names.no_duplicates(),
    ensures
        lines_upto(memories, names, n) == lines_upto(memories.drop_last(), names, n) + (if names.take(
            n as int,
        ).contains(memories.last().category.name()) {
            1nat
        } else {
            0nat
        }),
    decreases n,
{
    reveal(Seq::filter);
    let name = memories.last().category.name();
    if n > 0 {
        lemma_one_line_more(memories, names, (n - 1) as nat);
        let fewer = names.take(n - 1);
        let more = names.take(n as int);
        assert(under(names[n - 1])(memories.last()) == (names[n - 1] == name));
        if fewer.contains(name) {
            let k = choose|k: int| 0 <= k < fewer.len() && fewer[k] == name;
            assert(more[k] == name);
            assert(names[k] == name);
        }
        if more.contains(name) {
            let k = choose|k: int| 0 <= k < more.len() && more[k] == name;
            if k < n - 1 {
                assert(fewer[k] == name);
            }
        }
        if names[n - 1] == name {
            assert(more[n - 1] == name);
        }
    }
}

proof fn lemma_lines_counted(memories: Seq<MemoryView>, names: Seq<Seq<char>>)
    requires
        names.no_duplicates(),
        forall|i: int|
            0 <= i < memories.len() ==> names.contains((#[trigger] memories[i]).category.name()),
    ensures
        lines_upto(memories, names, names.len()) == memories.len(),
    decreases memories.len(),
{
    assert(names.take(names.len() as int) =~= names);
    if memories.len() > 0 {
        let shorter = memories.drop_last();
        assert forall|i: int| 0 <= i < shorter.len() implies names.contains(
            (#[trigger] shorter[i]).category.name(),
        ) by {
            assert(shorter[i] == memories[i]);
        }
        lemma_lines_counted(shorter, names);
        lemma_one_line_more(memories, names, names.len());
        assert(names.contains(memories[memories.len() - 1].category.name()));
    } else {
        lemma_no_lines(memories, names, names.len());
    }
}

proof fn lemma_no_lines(memories: Seq<MemoryView>, names: Seq<Seq<char>>, n: nat)
    requires
        memories.len() == 0,
    ensures
        lines_upto(memories, names, n) == 0,
    decreases n,
{
    reveal(Seq::filter);
    if n > 0 {
        lemma_no_lines(memories, names, (n - 1) as nat);
    }
}

/// Over all sections there are as many lines as the header counts memories.
pub proof fn lines_are_as_many_as_the_header_says(memories: Seq<MemoryView>)
    ensures
        lines_upto(memories, category_names(memories), category_names(memories).len())
            == memories.len(),
{
    let names = category_names(memories);
    sections_cover_the_categories(memories, Seq::empty());
    assert forall|i: int, j: int| 0 <= i < j < names.len() implies names[i] != names[j] by {
        assert(text_before(names[i], names[j]));
        crate::text::text_order_is_strict(names[i], names[j]);
    }
    assert forall|i: int| 0 <= i < memories.len() implies names.contains(
        (#[trigger] memories[i]).category.name(),
    ) by {
        sections_cover_the_categories(memories, memories[i].category.name());
    }
    lemma_lines_counted(memories, names);
}

/// A line says what the memory says, when it was made, how it is tagged and
/// whether it was replaced.
pub proof fn lines_say_what_a_memory_is(memory: MemoryView)
    ensures
        ({
            let said = "- "@ + flat(memory.content) + "  _("@ + memory.created_at.day();
            let tags = " \u{b7} "@ + joined(memory.tags, ", "@);
            let line = export_line(memory);
            &&& memory.tags.len() == 0 && memory.superseded_by is None ==> line == said + ")_\n"@
            &&& memory.tags.len() > 0 && memory.superseded_by is None ==> line == said + tags
                + ")_\n"@
            &&& memory.tags.len() == 0 && memory.superseded_by is Some ==> line == said
                + " \u{b7} "@ + "superseded"@ + ")_\n"@
            &&& memory.tags.len() > 0 && memory.superseded_by is Some ==> line == said + tags
                + " \u{b7} "@ + "superseded"@ + ")_\n"@
            &&& has_part(line, flat(memory.content))
        }),
{
    let line = export_line(memory);
    let said = "- "@ + flat(memory.content) + "  _("@ + memory.created_at.day();
    let dot = " \u{b7} "@;
    let tags = joined(memory.tags, ", "@);
    let notes = export_notes(memory);
    let day = memory.created_at.day();
    reveal_with_fuel(joined, 4);
    if memory.tags.len() == 0 && memory.superseded_by is None {
        assert(notes =~= seq![day]);
        assert(line =~= said + ")_\n"@);
    } else if memory.tags.len() > 0 && memory.superseded_by is None {
        assert(notes =~= seq![day, tags]);
        assert(notes.drop_last() =~= seq![day]);
        assert(line =~= said + (dot + tags) + ")_\n"@);
    } else if memory.tags.len() == 0 {
        assert(notes =~= seq![day, "superseded"@]);
        assert(notes.drop_last() =~= seq![day]);
        assert(line =~= said + dot + "superseded"@ + ")_\n"@);
    } else {
        assert(notes =~= seq![day, tags, "superseded"@]);
        assert(notes.drop_last() =~= seq![day, tags]);
        assert(notes.drop_last().drop_last() =~= seq![day]);
        assert(line =~= said + (dot + tags) + dot + "superseded"@ + ")_\n"@);
    }
    let rest = "  _("@ + joined(notes, dot) + ")_\n"@;
    parts_are_had("- "@, flat(memory.content), rest);
    assert("- "@ + flat(memory.content) + rest =~= line);
}

/// A JSON export lists every memory in order, each with what it is in its own
/// fields.
pub proof fn json_exports_list_every_memory(
    memories: Seq<MemoryView>,
    confidences: Seq<serde_json::Value>,
    i: int,
)
    requires
        0 <= i < memories.len(),
    ensures
        list_in(field_of(export_tree(memories, confidences), "memories"@)) matches Some(listed)
            && listed.len() == memories.len() && ({
            let m = memories[i];
            let tree = listed[i];
            &&& text_in(field_of(tree, "id"@)) == Some(m.id.text())
            &&& text_in(field_of(tree, "content"@)) == Some(m.content)
            &&& text_in(field_of(tree, "category"@)) == Some(m.category.name())
            &&& list_in(field_of(tree, "tags"@)) matches Some(tags) && tags.len() == m.tags.len()
                && forall|j: int|
                0 <= j < m.tags.len() ==> #[trigger] tags[j] == JsonTree::Text(m.tags[j])
            &&& field_of(tree, "confidence"@) == Some(json_tree(confidences[i]))
            &&& text_in(field_of(tree, "created_at"@)) == Some(m.created_at.text())
            &&& text_in(field_of(tree, "updated_at"@)) == Some(m.updated_at.text())
            &&& m.superseded_by matches Some(id) ==> text_in(field_of(tree, "superseded_by"@))
                == Some(id.text())
            &&& m.superseded_by is None ==> field_of(tree, "superseded_by"@) == Some(JsonTree::Null)
        }),
{
    reveal_strlit("id");
    reveal_strlit("content");
    reveal_strlit("category");
    reveal_strlit("tags");
    reveal_strlit("confidence");
    reveal_strlit("created_at");
    reveal_strlit("updated_at");
    reveal_strlit("superseded_by");
    assert("content"@[0] == 'c' && "content"@[2] == 'n' && "content"@.len() == 7);
    assert("confidence"@.len() == 10 && "confidence"@[0] == 'c');
    assert("created_at"@.len() == 10 && "created_at"@[1] == 'r' && "confidence"@[1] == 'o');
    assert("updated_at"@.len() == 10 && "updated_at"@[0] == 'u');
    assert("id"@.len() == 2 && "category"@.len() == 8 && "tags"@.len() == 4);
    assert("superseded_by"@.len() == 13);
}

/// An export is in markdown unless JSON is named.
pub proof fn formats_go_by_their_names(name: Seq<char>)
    ensures
        format_of(None) == Some(ExportFormat::Markdown),
        format_of(Some("markdown"@)) == Some(ExportFormat::Markdown),
        format_of(Some("md"@)) == Some(ExportFormat::Markdown),
        format_of(Some("json"@)) == Some(ExportFormat::Json),
        name != "markdown"@ && name != "md"@ && name != "json"@ ==> format_of(Some(name)) is None,
{
    reveal_strlit("markdown");
    reveal_strlit("md");
    reveal_strlit("json");
    assert("markdown"@.len() == 8 && "md"@.len() == 2 && "json"@.len() == 4);
}

} // verus!
