//! Builds the profile: who is this user, in one read.
//!
//! An agent that starts a session has asked nothing yet, and the most
//! valuable memories are those it does not know to ask for. Whatever the
//! profile holds is spent from the agent's context window before the
//! conversation starts, so it is capped, and what survives is chosen.
use crate::memories::domain::category::{Category, CategoryView};
use crate::memories::domain::memory::{Memory, MemoryView};
use crate::memories::domain::recall_ranker::{height, height_of, memory_views};
use crate::order::{
    is_arrangement, is_stable_order, sorted_places, sorting_is_possible, stable_order, SortKey,
};
use crate::shared::error::Result;
use crate::shared::time::{is_instant, newest_keys_order, Timestamp};
use crate::text::{
    byte_len, bytes_in, decimal, decimal_text, each_part_is_had, flat, flatten, has_part,
    having_parts_is_transitive, join, joined, parts_are_had, parts_of_parts_are_had,
};
use vstd::prelude::*;
use vstd::string::StringExecFns;

verus! {

/// Rough characters per token, which turns the token budget into one of bytes.
pub const CHARS_PER_TOKEN: usize = 4;

/// Deliberately small: this is rent paid on every session.
pub const DEFAULT_TOKEN_BUDGET: usize = 1_500;

/// Cap per category, so that a prolific one cannot crowd out the rest.
pub const MAX_PER_CATEGORY: usize = 8;

/// What was superseded or has expired is not asked for.
pub const INCLUDE_INACTIVE: bool = false;

/// What a memory's place in its section is decided by: confidence, highest
/// first, then age, newest first, then identifier.
pub open spec fn profile_key(memory: MemoryView) -> SortKey {
    (
        (u32::MAX - height(memory.confidence)) as u128,
        memory.created_at.newest_key(),
        memory.id.value,
    )
}

pub open spec fn profile_keys(group: Seq<MemoryView>) -> Seq<SortKey> {
    group.map_values(|m: MemoryView| profile_key(m))
}

/// A group in the order in which it deserves the budget.
pub open spec fn by_worth(group: Seq<MemoryView>) -> Seq<MemoryView> {
    sorted_places(profile_keys(group)).map_values(|k: usize| group[k as int])
}

/// One memory on one line.
pub open spec fn profile_line(memory: MemoryView) -> Seq<char> {
    if memory.tags.len() == 0 {
        flat(memory.content)
    } else {
        flat(memory.content) + " _("@ + joined(memory.tags, ", "@) + ")_"@
    }
}

/// A section's lines.
pub open spec fn profile_lines(group: Seq<MemoryView>) -> Seq<char>
    decreases group.len(),
{
    if group.len() == 0 {
        Seq::empty()
    } else {
        profile_lines(group.drop_last()) + ("- "@ + profile_line(group.last()) + "\n"@)
    }
}

pub open spec fn at_most(n: nat, cap: nat) -> nat {
    if n < cap {
        n
    } else {
        cap
    }
}

/// A section: its heading, and the worthiest of the group.
pub open spec fn profile_section(heading: Seq<char>, group: Seq<MemoryView>) -> Seq<char> {
    "\n## "@ + heading + "\n"@ + profile_lines(
        by_worth(group).take(at_most(group.len(), MAX_PER_CATEGORY as nat) as int),
    )
}

/// A profile in the making: what it says, and how many memories it shows.
pub struct DraftView {
    pub output: Seq<char>,
    pub included: nat,
}

/// What a profile says last where it shows fewer memories than there are.
pub open spec fn profile_note(included: nat, total: nat) -> Seq<char> {
    if included >= total {
        Seq::empty()
    } else {
        "\n_"@ + decimal(included) + " of "@ + decimal(total)
            + " memories shown. Use `memory_recall` to search the rest._\n"@
    }
}

/// Whether a section that shows `shown` memories fits behind what is there,
/// together with the note that is due if nothing follows it. Without a limit
/// everything fits.
pub open spec fn fits(
    draft: DraftView,
    section: Seq<char>,
    shown: nat,
    total: nat,
    limit: Option<nat>,
) -> bool {
    limit is Some ==> byte_len(draft.output) + byte_len(section) + byte_len(
        profile_note(draft.included + shown, total),
    ) <= limit->0
}

/// The memories of a built-in category, in order.
pub open spec fn in_category(memories: Seq<MemoryView>, category: CategoryView) -> Seq<MemoryView>
    decreases memories.len(),
{
    if memories.len() == 0 {
        Seq::empty()
    } else {
        let earlier = in_category(memories.drop_last(), category);
        if memories.last().category == category {
            earlier.push(memories.last())
        } else {
            earlier
        }
    }
}

/// The memories of the configured categories, in order.
pub open spec fn in_no_built_in(memories: Seq<MemoryView>) -> Seq<MemoryView>
    decreases memories.len(),
{
    if memories.len() == 0 {
        Seq::empty()
    } else {
        let earlier = in_no_built_in(memories.drop_last());
        if memories.last().category is Custom {
            earlier.push(memories.last())
        } else {
            earlier
        }
    }
}

/// How many of a group a section shows.
pub open spec fn shown_of(group: Seq<MemoryView>) -> nat {
    at_most(group.len(), MAX_PER_CATEGORY as nat)
}

/// The draft with a group's section, whole or not at all.
pub open spec fn with_group(
    draft: DraftView,
    heading: Seq<char>,
    group: Seq<MemoryView>,
    total: nat,
    limit: Option<nat>,
) -> DraftView {
    let section = profile_section(heading, group);
    if group.len() > 0 && fits(draft, section, shown_of(group), total, limit) {
        DraftView {
            output: draft.output + section,
            included: draft.included + shown_of(group),
        }
    } else {
        draft
    }
}

/// The draft with the sections of the first `n` categories.
pub open spec fn with_categories(
    draft: DraftView,
    memories: Seq<MemoryView>,
    order: Seq<CategoryView>,
    n: nat,
    limit: Option<nat>,
) -> DraftView
    decreases n,
{
    if n == 0 {
        draft
    } else {
        with_group(
            with_categories(draft, memories, order, (n - 1) as nat, limit),
            heading_of(order[n - 1]),
            in_category(memories, order[n - 1]),
            memories.len(),
            limit,
        )
    }
}

/// The order in which categories appear: preferences first, since they change
/// what an agent does, references last, since they are lookups.
pub open spec fn profile_order() -> Seq<CategoryView> {
    seq![
        CategoryView::PreferenceCoding,
        CategoryView::PreferencePersonal,
        CategoryView::Decision,
        CategoryView::FactProject,
        CategoryView::FactPerson,
        CategoryView::Skill,
        CategoryView::Experience,
        CategoryView::Reference,
    ]
}

pub open spec fn heading_of(category: CategoryView) -> Seq<char> {
    match category {
        CategoryView::PreferenceCoding => "Coding preferences"@,
        CategoryView::PreferencePersonal => "Personal preferences"@,
        CategoryView::Decision => "Decisions"@,
        CategoryView::FactProject => "Project facts"@,
        CategoryView::FactPerson => "People"@,
        CategoryView::Skill => "Skills"@,
        CategoryView::Experience => "Experiences"@,
        CategoryView::Reference => "References"@,
        CategoryView::Custom(name) => name,
    }
}

pub open spec fn profile_header(handle: Seq<char>, now: Timestamp) -> Seq<char> {
    "# Memory profile: "@ + handle + " (updated "@ + now.day() + ")\n"@
}

/// What a profile without memories says instead.
pub open spec fn profile_invitation() -> Seq<char> {
    "\nNo memories stored yet. Save one with the `memory_save` tool when the user states a durable preference, decision or fact.\n"@
}

/// The header and the sections: the categories in order, the configured ones
/// last, each whole or not at all.
pub open spec fn sections(
    handle: Seq<char>,
    memories: Seq<MemoryView>,
    now: Timestamp,
    limit: Option<nat>,
) -> DraftView {
    let start = DraftView { output: profile_header(handle, now), included: 0 };
    with_group(
        with_categories(start, memories, profile_order(), profile_order().len(), limit),
        "other"@,
        in_no_built_in(memories),
        memories.len(),
        limit,
    )
}

/// The profile before its note: everything, where all of it can be shown and
/// fits the budget, and otherwise what fits together with the note.
pub open spec fn profile_body(
    handle: Seq<char>,
    memories: Seq<MemoryView>,
    now: Timestamp,
    budget: nat,
) -> DraftView {
    let everything = sections(handle, memories, now, None);
    if everything.included == memories.len() && byte_len(everything.output) <= budget {
        everything
    } else {
        sections(handle, memories, now, Some(budget))
    }
}

/// The profile of a user.
pub open spec fn profile(
    handle: Seq<char>,
    memories: Seq<MemoryView>,
    now: Timestamp,
    budget: nat,
) -> Seq<char> {
    if memories.len() == 0 {
        profile_header(handle, now) + profile_invitation()
    } else {
        let body = profile_body(handle, memories, now, budget);
        body.output + profile_note(body.included, memories.len())
    }
}

/// The memories that are active, in order.
pub open spec fn active(memories: Seq<MemoryView>, now: Timestamp) -> Seq<MemoryView>
    decreases memories.len(),
{
    if memories.len() == 0 {
        Seq::empty()
    } else {
        let earlier = active(memories.drop_last(), now);
        if memories.last().is_active_at(now) {
            earlier.push(memories.last())
        } else {
            earlier
        }
    }
}

/// What a section is called.
pub fn heading(category: &Category) -> (title: &str)
    ensures
        title@ == heading_of(category@),
{
    match category {
        Category::PreferenceCoding => "Coding preferences",
        Category::PreferencePersonal => "Personal preferences",
        Category::Decision => "Decisions",
        Category::FactProject => "Project facts",
        Category::FactPerson => "People",
        Category::Skill => "Skills",
        Category::Experience => "Experiences",
        Category::Reference => "References",
        Category::Custom(name) => name.as_str(),
    }
}

fn category_order() -> (order: Vec<Category>)
    ensures
        order@.map_values(|c: Category| c@) == profile_order(),
{
    let mut order: Vec<Category> = Vec::new();
    order.push(Category::PreferenceCoding);
    order.push(Category::PreferencePersonal);
    order.push(Category::Decision);
    order.push(Category::FactProject);
    order.push(Category::FactPerson);
    order.push(Category::Skill);
    order.push(Category::Experience);
    order.push(Category::Reference);
    assert(order@.map_values(|c: Category| c@) =~= profile_order());
    order
}

/// One memory, one line: a line feed would break the list.
pub fn one_line(memory: &Memory) -> (line: String)
    ensures
        line@ == profile_line(memory@),
{
    let mut line = flatten(memory.content());
    if memory.tags().len() > 0 {
        line.append(" _(");
        line.append(join(memory.tags(), ", ").as_str());
        line.append(")_");
    }
    line
}

/// Orders a section by what deserves the budget: an uncertain memory is a
/// poor thing to assert at the start of a session.
pub fn rank_for_profile(group: &Vec<Memory>) -> (order: Vec<usize>)
    ensures
        order@ == sorted_places(profile_keys(memory_views(group@))),
        is_stable_order(order@, profile_keys(memory_views(group@))),
{
    let mut keys: Vec<SortKey> = Vec::new();
    let mut i: usize = 0;
    while i < group.len()
        invariant
            0 <= i <= group@.len(),
            keys@ == profile_keys(memory_views(group@)).take(i as int),
        decreases group@.len() - i,
    {
        let rank: u32 = height_of(group[i].confidence());
        let created = group[i].created_at();
        keys.push(((u32::MAX - rank) as u128, created.newest_first(), group[i].id().value));
        proof {
            let all = profile_keys(memory_views(group@));
            assert(all[i as int] == profile_key(group@[i as int]@));
            assert(all.take(i + 1) =~= all.take(i as int).push(all[i as int]));
        }
        i += 1;
    }
    assert(keys@ =~= profile_keys(memory_views(group@)));
    stable_order(&keys)
}

fn section_text(title: &str, group: &Vec<Memory>) -> (section: String)
    ensures
        section@ == profile_section(title@, memory_views(group@)),
{
    let order = rank_for_profile(group);
    let ghost views = memory_views(group@);
    let ghost best = by_worth(views);
    let shown: usize = if group.len() < MAX_PER_CATEGORY {
        group.len()
    } else {
        MAX_PER_CATEGORY
    };
    let mut section = "\n## ".to_owned();
    section.append(title);
    section.append("\n");
    let ghost start = section@;
    let mut k: usize = 0;
    assert(best.take(0) =~= Seq::empty());
    assert(start + Seq::<char>::empty() =~= start);
    while k < shown
        invariant
            0 <= k <= shown <= order@.len(),
            views == memory_views(group@),
            best == by_worth(views),
            order@ == sorted_places(profile_keys(views)),
            is_stable_order(order@, profile_keys(views)),
            section@ == start + profile_lines(best.take(k as int)),
        decreases shown - k,
    {
        assert(order@[k as int] < profile_keys(views).len());
        let line = one_line(&group[order[k]]);
        let mut item = "- ".to_owned();
        item.append(line.as_str());
        item.append("\n");
        section.append(item.as_str());
        proof {
            assert(best[k as int] == group@[order@[k as int] as int]@);
            assert(best.take(k + 1).drop_last() =~= best.take(k as int));
            assert(best.take(k + 1).last() == best[k as int]);
            assert(start + profile_lines(best.take(k + 1)) =~= start + profile_lines(
                best.take(k as int),
            ) + item@);
        }
        k += 1;
    }
    section
}

fn category_group(memories: &Vec<Memory>, category: &Category) -> (group: Vec<Memory>)
    ensures
        memory_views(group@) == in_category(memory_views(memories@), category@),
{
    let mut group: Vec<Memory> = Vec::new();
    let ghost all = memory_views(memories@);
    let mut i: usize = 0;
    assert(all.take(0) =~= Seq::empty());
    assert(memory_views(group@) =~= Seq::empty());
    while i < memories.len()
        invariant
            0 <= i <= memories@.len(),
            all == memory_views(memories@),
            memory_views(group@) == in_category(all.take(i as int), category@),
        decreases memories@.len() - i,
    {
        proof {
            assert(all.take(i + 1).drop_last() =~= all.take(i as int));
            assert(all.take(i + 1).last() == memories@[i as int]@);
        }
        if memories[i].category().same(category) {
            let ghost before = group@;
            let memory = memories[i].copy();
            let ghost added = memory@;
            group.push(memory);
            assert(memory_views(group@) =~= memory_views(before).push(added));
        }
        i += 1;
    }
    assert(all.take(all.len() as int) =~= all);
    group
}

fn other_group(memories: &Vec<Memory>) -> (group: Vec<Memory>)
    ensures
        memory_views(group@) == in_no_built_in(memory_views(memories@)),
{
    let mut group: Vec<Memory> = Vec::new();
    let ghost all = memory_views(memories@);
    let mut i: usize = 0;
    assert(all.take(0) =~= Seq::empty());
    assert(memory_views(group@) =~= Seq::empty());
    while i < memories.len()
        invariant
            0 <= i <= memories@.len(),
            all == memory_views(memories@),
            memory_views(group@) == in_no_built_in(all.take(i as int)),
        decreases memories@.len() - i,
    {
        proof {
            assert(all.take(i + 1).drop_last() =~= all.take(i as int));
            assert(all.take(i + 1).last() == memories@[i as int]@);
        }
        let custom = match memories[i].category() {
            Category::Custom(_) => true,
            _ => false,
        };
        if custom {
            let ghost before = group@;
            let memory = memories[i].copy();
            let ghost added = memory@;
            group.push(memory);
            assert(memory_views(group@) =~= memory_views(before).push(added));
        }
        i += 1;
    }
    assert(all.take(all.len() as int) =~= all);
    group
}

struct Draft {
    output: String,
    included: usize,
}

impl Draft {
    spec fn draft(self) -> DraftView {
        DraftView { output: self.output@, included: self.included as nat }
    }

    spec fn limit_of(limit: Option<usize>) -> Option<nat> {
        match limit {
            Some(budget) => Some(budget as nat),
            None => None,
        }
    }

    /// Whether a section fits behind what is there.
    fn has_room(&self, section: &str, shown: usize, total: usize, limit: Option<usize>) -> (room:
        bool)
        requires
            self.included + shown <= usize::MAX,
        ensures
            room == fits(
                self.draft(),
                section@,
                shown as nat,
                total as nat,
                Self::limit_of(limit),
            ),
    {
        match limit {
            Some(budget) => {
                let used: usize = bytes_in(self.output.as_str());
                let more: usize = bytes_in(section);
                let note: usize = bytes_in(note_text(self.included + shown, total).as_str());
                used <= budget && more <= budget - used && note <= budget - used - more
            },
            None => true,
        }
    }

    /// Adds a group's section, if it fits.
    fn add_group(
        self,
        title: &str,
        group: &Vec<Memory>,
        total: usize,
        limit: Option<usize>,
    ) -> (grown: Draft)
        requires
            self.included + MAX_PER_CATEGORY <= usize::MAX,
        ensures
            grown.draft() == with_group(
                self.draft(),
                title@,
                memory_views(group@),
                total as nat,
                Self::limit_of(limit),
            ),
            grown.included <= self.included + MAX_PER_CATEGORY,
    {
        let mut grown = self;
        assert(memory_views(group@).len() == group@.len());
        if group.len() > 0 {
            let shown: usize = if group.len() < MAX_PER_CATEGORY {
                group.len()
            } else {
                MAX_PER_CATEGORY
            };
            let section = section_text(title, group);
            if grown.has_room(section.as_str(), shown, total, limit) {
                grown.output.append(section.as_str());
                grown.included = grown.included + shown;
            }
        }
        grown
    }
}

/// The note on what a profile leaves out, if it leaves anything out.
fn note_text(included: usize, total: usize) -> (note: String)
    ensures
        note@ == profile_note(included as nat, total as nat),
{
    if included >= total {
        return String::new();
    }
    let mut note = "\n_".to_owned();
    note.append(decimal_text(included as u64).as_str());
    note.append(" of ");
    note.append(decimal_text(total as u64).as_str());
    note.append(" memories shown. Use `memory_recall` to search the rest._\n");
    note
}

/// The header and the sections that fit.
fn assemble(header: &str, memories: &Vec<Memory>, limit: Option<usize>) -> (draft: Draft)
    ensures
        forall|handle: Seq<char>, now: Timestamp| #[trigger]
            profile_header(handle, now) == header@ ==> draft.draft() == sections(
                handle,
                memory_views(memories@),
                now,
                Draft::limit_of(limit),
            ),
{
    let ghost views = memory_views(memories@);
    let ghost room = Draft::limit_of(limit);
    let mut draft = Draft { output: header.to_owned(), included: 0 };
    let ghost start = draft.draft();
    let order = category_order();
    let ghost places = profile_order();
    assert(order@.map_values(|c: Category| c@).len() == order@.len());
    assert(places.len() == 8);
    let mut n: usize = 0;
    while n < order.len()
        invariant
            0 <= n <= order@.len(),
            order@.len() == 8,
            places == profile_order(),
            order@.map_values(|c: Category| c@) == places,
            views == memory_views(memories@),
            room == Draft::limit_of(limit),
            draft.draft() == with_categories(start, views, places, n as nat, room),
            draft.included <= n * 8,
        decreases order@.len() - n,
    {
        let category = &order[n];
        assert(places[n as int] == category@);
        let group = category_group(memories, category);
        draft = draft.add_group(heading(category), &group, memories.len(), limit);
        n += 1;
    }
    draft.add_group("other", &other_group(memories), memories.len(), limit)
}

/// Renders the profile: sections in order, each whole or not at all, as long
/// as they fit the budget together with the note on what was left out.
pub fn render(handle: &str, memories: &Vec<Memory>, now: Timestamp, char_budget: usize) -> (text:
    String)
    ensures
        text@ == profile(handle@, memory_views(memories@), now, char_budget as nat),
{
    let mut header = "# Memory profile: ".to_owned();
    header.append(handle);
    header.append(" (updated ");
    header.append(now.day_label().as_str());
    header.append(")\n");
    assert(header@ == profile_header(handle@, now));
    if memories.len() == 0 {
        header.append(
            "\nNo memories stored yet. Save one with the `memory_save` tool when the user states a durable preference, decision or fact.\n",
        );
        return header;
    }
    let everything = assemble(header.as_str(), memories, None);
    let draft = if everything.included == memories.len() && bytes_in(everything.output.as_str())
        <= char_budget {
        everything
    } else {
        assemble(header.as_str(), memories, Some(char_budget))
    };
    let note = note_text(draft.included, memories.len());
    let mut text = draft.output;
    text.append(note.as_str());
    text
}

fn keep_active(memories: Vec<Memory>, now: Timestamp) -> (kept: Vec<Memory>)
    ensures
        memory_views(kept@) == active(memory_views(memories@), now),
{
    let mut kept: Vec<Memory> = Vec::new();
    let ghost all = memory_views(memories@);
    let mut i: usize = 0;
    assert(all.take(0) =~= Seq::empty());
    assert(memory_views(kept@) =~= Seq::empty());
    while i < memories.len()
        invariant
            0 <= i <= memories@.len(),
            all == memory_views(memories@),
            memory_views(kept@) == active(all.take(i as int), now),
        decreases memories@.len() - i,
    {
        proof {
            assert(all.take(i + 1).drop_last() =~= all.take(i as int));
            assert(all.take(i + 1).last() == memories@[i as int]@);
        }
        if memories[i].is_active_at(now) {
            let ghost before = kept@;
            let memory = memories[i].copy();
            let ghost added = memory@;
            kept.push(memory);
            assert(memory_views(kept@) =~= memory_views(before).push(added));
        }
        i += 1;
    }
    assert(all.take(all.len() as int) =~= all);
    kept
}

#[derive(Debug, Clone, Copy)]
pub struct ProfileAssembler;

impl ProfileAssembler {
    pub fn new() -> (assembler: ProfileAssembler) {
        ProfileAssembler
    }

    /// The profile of the memories that the store listed for the user.
    pub fn execute(&self, handle: &str, now: Timestamp, reply: Result<Vec<Memory>>) -> (text: Result<
        String,
    >)
        ensures
            match reply {
                Ok(memories) => text matches Ok(t) && t@ == profile(
                    handle@,
                    active(memory_views(memories@), now),
                    now,
                    (DEFAULT_TOKEN_BUDGET * CHARS_PER_TOKEN) as nat,
                ),
                Err(error) => text == Err::<String, crate::shared::error::RaError>(error),
            },
    {
        match reply {
            Ok(memories) => {
                let shown = keep_active(memories, now);
                Ok(render(handle, &shown, now, self.char_budget()))
            },
            Err(error) => Err(error),
        }
    }

    pub fn char_budget(&self) -> (budget: usize)
        ensures
            budget == DEFAULT_TOKEN_BUDGET * CHARS_PER_TOKEN,
    {
        DEFAULT_TOKEN_BUDGET * CHARS_PER_TOKEN
    }
}

proof fn lemma_group_fits(
    draft: DraftView,
    heading: Seq<char>,
    group: Seq<MemoryView>,
    total: nat,
    budget: nat,
)
    requires
        byte_len(draft.output) + byte_len(profile_note(draft.included, total)) <= budget,
    ensures
        ({
            let grown = with_group(draft, heading, group, total, Some(budget));
            byte_len(grown.output) + byte_len(profile_note(grown.included, total)) <= budget
        }),
{
    crate::text::byte_lengths_add(draft.output, profile_section(heading, group));
}

proof fn lemma_categories_fit(
    draft: DraftView,
    memories: Seq<MemoryView>,
    order: Seq<CategoryView>,
    n: nat,
    budget: nat,
)
    requires
        byte_len(draft.output) + byte_len(profile_note(draft.included, memories.len())) <= budget,
    ensures
        ({
            let grown = with_categories(draft, memories, order, n, Some(budget));
            byte_len(grown.output) + byte_len(profile_note(grown.included, memories.len()))
                <= budget
        }),
    decreases n,
{
    if n > 0 {
        lemma_categories_fit(draft, memories, order, (n - 1) as nat, budget);
        lemma_group_fits(
            with_categories(draft, memories, order, (n - 1) as nat, Some(budget)),
            heading_of(order[n - 1]),
            in_category(memories, order[n - 1]),
            memories.len(),
            budget,
        );
    }
}

/// A profile never exceeds its budget, however many memories there are, as
/// long as the budget has room for the header and a note.
pub proof fn profiles_keep_to_the_budget(
    handle: Seq<char>,
    memories: Seq<MemoryView>,
    now: Timestamp,
    budget: nat,
)
    requires
        memories.len() > 0,
        byte_len(profile_header(handle, now)) + byte_len(profile_note(0, memories.len()))
            <= budget,
    ensures
        byte_len(profile(handle, memories, now, budget)) <= budget,
{
    let start = DraftView { output: profile_header(handle, now), included: 0 };
    let middle = with_categories(
        start,
        memories,
        profile_order(),
        profile_order().len(),
        Some(budget),
    );
    lemma_categories_fit(start, memories, profile_order(), profile_order().len(), budget);
    lemma_group_fits(middle, "other"@, in_no_built_in(memories), memories.len(), budget);
    let body = profile_body(handle, memories, now, budget);
    let note = profile_note(body.included, memories.len());
    crate::text::byte_lengths_add(body.output, note);
    if body == sections(handle, memories, now, None) && note.len() == 0 {
        assert(byte_len(note) == 0);
    }
}

/// How many memories are in the first `n` categories.
spec fn grouped(memories: Seq<MemoryView>, order: Seq<CategoryView>, n: nat) -> nat
    decreases n,
{
    if n == 0 {
        0
    } else {
        grouped(memories, order, (n - 1) as nat) + in_category(memories, order[n - 1]).len()
    }
}

/// One memory more is one more in the categories that are its own.
proof fn lemma_grouped_step(memories: Seq<MemoryView>, order: Seq<CategoryView>, n: nat)
    requires
        memories.len() > 0,
        n <= order.len(),
        order.no_duplicates(),
    ensures
        grouped(memories, order, n) == grouped(memories.drop_last(), order, n) + (if exists|i: int|
            0 <= i < n && order[i] == memories.last().category {
            1nat
        } else {
            0nat
        }),
    decreases n,
{
    if n > 0 {
        lemma_grouped_step(memories, order, (n - 1) as nat);
        let category = memories.last().category;
        if order[n - 1] == category {
            assert forall|i: int| 0 <= i < n - 1 implies order[i] != category by {}
        }
    }
}

/// Every memory is in one category, or in a configured one.
proof fn lemma_all_grouped(memories: Seq<MemoryView>)
    ensures
        grouped(memories, profile_order(), 8) + in_no_built_in(memories).len() == memories.len(),
    decreases memories.len(),
{
    let order = profile_order();
    if memories.len() == 0 {
        lemma_none_grouped(memories, order, 8);
    } else {
        lemma_all_grouped(memories.drop_last());
        lemma_grouped_step(memories, order, 8);
        let category = memories.last().category;
        if !(category is Custom) {
            assert(order[0] == CategoryView::PreferenceCoding);
            assert(order[1] == CategoryView::PreferencePersonal);
            assert(order[2] == CategoryView::Decision);
            assert(order[3] == CategoryView::FactProject);
            assert(order[4] == CategoryView::FactPerson);
            assert(order[5] == CategoryView::Skill);
            assert(order[6] == CategoryView::Experience);
            assert(order[7] == CategoryView::Reference);
        }
    }
}

proof fn lemma_none_grouped(memories: Seq<MemoryView>, order: Seq<CategoryView>, n: nat)
    requires
        memories.len() == 0,
    ensures
        grouped(memories, order, n) == 0,
    decreases n,
{
    if n > 0 {
        lemma_none_grouped(memories, order, (n - 1) as nat);
    }
}

proof fn lemma_shown_are_grouped(
    draft: DraftView,
    memories: Seq<MemoryView>,
    order: Seq<CategoryView>,
    n: nat,
    limit: Option<nat>,
)
    ensures
        with_categories(draft, memories, order, n, limit).included <= draft.included + grouped(
            memories,
            order,
            n,
        ),
    decreases n,
{
    if n > 0 {
        lemma_shown_are_grouped(draft, memories, order, (n - 1) as nat, limit);
    }
}

/// A profile that shows fewer memories than there are says so, and how many,
/// in its last line; one that shows them all says nothing of the kind.
pub proof fn a_shortened_profile_says_so(
    handle: Seq<char>,
    memories: Seq<MemoryView>,
    now: Timestamp,
    budget: nat,
)
    requires
        memories.len() > 0,
    ensures
        ({
            let body = profile_body(handle, memories, now, budget);
            let text = profile(handle, memories, now, budget);
            &&& body.included <= memories.len()
            &&& body.included < memories.len() ==> text == body.output + ("\n_"@ + decimal(
                body.included,
            ) + " of "@ + decimal(memories.len())
                + " memories shown. Use `memory_recall` to search the rest._\n"@)
            &&& body.included == memories.len() ==> text == body.output
        }),
{
    let start = DraftView { output: profile_header(handle, now), included: 0 };
    lemma_all_grouped(memories);
    lemma_shown_are_grouped(start, memories, profile_order(), 8, None);
    lemma_shown_are_grouped(start, memories, profile_order(), 8, Some(budget));
    assert(profile_order().len() == 8);
    let body = profile_body(handle, memories, now, budget);
    assert(body.output + Seq::<char>::empty() =~= body.output);
}

/// A line begins with all that the memory says, line feeds turned into spaces,
/// whether it is tagged or not; the tags stand behind it.
pub proof fn lines_begin_with_the_content(memory: MemoryView)
    ensures
        flat(memory.content).is_prefix_of(profile_line(memory)),
        memory.tags.len() == 0 ==> profile_line(memory) == flat(memory.content),
        memory.tags.len() > 0 ==> profile_line(memory) == flat(memory.content) + " _("@ + joined(
            memory.tags,
            ", "@,
        ) + ")_"@,
        has_part(profile_line(memory), flat(memory.content)),
{
    reveal(has_part);
    let said = flat(memory.content);
    let line = profile_line(memory);
    assert(said =~= line.subrange(0, said.len() as int));
    assert(line.subrange(0int, 0int + said.len()) == said);
}

/// A section is about one category: what is grouped under it is what the list
/// has of it, in order. What belongs to no built-in category is grouped by
/// itself, and what is not active is left out.
pub proof fn groups_are_what_belongs_together(
    memories: Seq<MemoryView>,
    category: CategoryView,
    now: Timestamp,
)
    ensures
        in_category(memories, category) == memories.filter(
            |m: MemoryView| m.category == category,
        ),
        in_no_built_in(memories) == memories.filter(|m: MemoryView| m.category is Custom),
        active(memories, now) == memories.filter(
            |m: MemoryView|
                m.superseded_by is None && (m.expires_at is None || now.before(m.expires_at->0)),
        ),
    decreases memories.len(),
{
    reveal(Seq::filter);
    if memories.len() > 0 {
        groups_are_what_belongs_together(memories.drop_last(), category, now);
    }
}

/// Preferences come first and references last; every built-in category has its
/// one place and its own heading.
pub proof fn sections_have_their_places()
    ensures
        profile_order().len() == 8,
        profile_order()[0] == CategoryView::PreferenceCoding,
        profile_order()[1] == CategoryView::PreferencePersonal,
        profile_order()[2] == CategoryView::Decision,
        profile_order()[3] == CategoryView::FactProject,
        profile_order()[4] == CategoryView::FactPerson,
        profile_order()[5] == CategoryView::Skill,
        profile_order()[6] == CategoryView::Experience,
        profile_order()[7] == CategoryView::Reference,
        heading_of(profile_order()[0]) == "Coding preferences"@,
        heading_of(profile_order()[1]) == "Personal preferences"@,
        heading_of(profile_order()[2]) == "Decisions"@,
        heading_of(profile_order()[3]) == "Project facts"@,
        heading_of(profile_order()[4]) == "People"@,
        heading_of(profile_order()[5]) == "Skills"@,
        heading_of(profile_order()[6]) == "Experiences"@,
        heading_of(profile_order()[7]) == "References"@,
{
}

/// Worth is a rearrangement of the group: every memory of it once.
pub proof fn worth_leaves_nobody_out(group: Seq<MemoryView>)
    requires
        group.len() <= usize::MAX,
    ensures
        exists|order: Seq<usize>|
            #[trigger] is_arrangement(order, group.len()) && by_worth(group) == order.map_values(
                |k: usize| group[k as int],
            ),
{
    sorting_is_possible(profile_keys(group));
    let order = sorted_places(profile_keys(group));
    assert(profile_keys(group).len() == group.len());
    assert(is_arrangement(order, group.len()));
}

/// The surer memory comes first, of equally sure ones the newer, and of those of
/// one time the one with the lesser identifier.
pub proof fn the_worthier_come_first(group: Seq<MemoryView>, i: int, j: int)
    requires
        group.len() <= usize::MAX,
        forall|k: int|
            0 <= k < group.len() ==> is_instant(
                (#[trigger] group[k]).created_at.spec_seconds(),
                group[k].created_at.spec_nanos(),
            ),
        0 <= i < j < by_worth(group).len(),
    ensures
        ({
            let (a, b) = (by_worth(group)[i], by_worth(group)[j]);
            ||| height(a.confidence) > height(b.confidence)
            ||| height(a.confidence) == height(b.confidence) && b.created_at.before(a.created_at)
            ||| height(a.confidence) == height(b.confidence) && a.created_at == b.created_at
                && a.id.value <= b.id.value
        }),
{
    let keys = profile_keys(group);
    sorting_is_possible(keys);
    let order = sorted_places(keys);
    let (x, y) = (order[i] as int, order[j] as int);
    assert(x < keys.len() && y < keys.len());
    assert(crate::order::comes_first(keys, x, y));
    let (a, b) = (group[x], group[y]);
    assert(by_worth(group)[i] == a && by_worth(group)[j] == b);
    newest_keys_order(a.created_at, b.created_at);
    assert(keys[x] == profile_key(a) && keys[y] == profile_key(b));
}

/// A memory's line in a list.
pub open spec fn item(memory: MemoryView) -> Seq<char> {
    "- "@ + profile_line(memory) + "\n"@
}

pub open spec fn items(group: Seq<MemoryView>) -> Seq<Seq<char>> {
    group.map_values(|m: MemoryView| item(m))
}

proof fn lemma_items(group: Seq<MemoryView>)
    ensures
        profile_lines(group) == items(group).flatten(),
    decreases group.len(),
{
    items(group).lemma_flatten_and_flatten_alt_are_equivalent();
    if group.len() > 0 {
        let shorter = group.drop_last();
        lemma_items(shorter);
        items(shorter).lemma_flatten_and_flatten_alt_are_equivalent();
        assert(items(group).drop_last() =~= items(shorter));
        assert(items(group).last() == item(group.last()));
    }
}

/// A section is its heading and a line for each of the worthiest of its group,
/// the worthiest first: all of them, or the best eight.
pub proof fn sections_list_the_worthiest(heading: Seq<char>, group: Seq<MemoryView>)
    ensures
        profile_section(heading, group) == "\n## "@ + heading + "\n"@ + by_worth(group).take(
            if group.len() < 8 {
                group.len() as int
            } else {
                8
            },
        ).map_values(|m: MemoryView| "- "@ + profile_line(m) + "\n"@).flatten(),
        shown_of(group) == (if group.len() < 8 {
            group.len()
        } else {
            8
        }),
{
    let best = by_worth(group).take(
        if group.len() < 8 {
            group.len() as int
        } else {
            8
        },
    );
    lemma_items(best);
    assert(items(best) =~= best.map_values(|m: MemoryView| "- "@ + profile_line(m) + "\n"@));
}

/// A section that fits behind what is there, with the note that would then be
/// due, is added whole and its lines are counted; one that does not, or that
/// would be empty, leaves everything as it is. Without a limit everything fits.
pub proof fn sections_are_added_whole(
    draft: DraftView,
    heading: Seq<char>,
    group: Seq<MemoryView>,
    total: nat,
    budget: nat,
)
    ensures
        ({
            let section = profile_section(heading, group);
            let shown: nat = if group.len() < 8 {
                group.len()
            } else {
                8
            };
            let added = DraftView {
                output: draft.output + section,
                included: draft.included + shown,
            };
            let due = profile_note(draft.included + shown, total);
            &&& group.len() == 0 ==> with_group(draft, heading, group, total, Some(budget)) == draft
            &&& group.len() == 0 ==> with_group(draft, heading, group, total, None) == draft
            &&& group.len() > 0 ==> with_group(draft, heading, group, total, None) == added
            &&& group.len() > 0 && byte_len(draft.output) + byte_len(section) + byte_len(due)
                <= budget ==> with_group(draft, heading, group, total, Some(budget)) == added
            &&& byte_len(draft.output) + byte_len(section) + byte_len(due) > budget ==> with_group(
                draft,
                heading,
                group,
                total,
                Some(budget),
            ) == draft
        }),
{
}

/// Whether a text shows a memory: the memory's line is a part of it.
pub open spec fn shows(text: Seq<char>, memory: MemoryView) -> bool {
    has_part(text, "- "@ + profile_line(memory) + "\n"@)
}

/// `places` are places of the list, each once, of memories that the text shows.
pub open spec fn are_shown(
    places: Seq<int>,
    text: Seq<char>,
    memories: Seq<MemoryView>,
) -> bool {
    &&& places.no_duplicates()
    &&& forall|k: int|
        0 <= k < places.len() ==> 0 <= #[trigger] places[k] < memories.len() && shows(
            text,
            memories[places[k]],
        )
}

/// The places at which a list has what `p` asks for.
spec fn places_of(memories: Seq<MemoryView>, p: spec_fn(MemoryView) -> bool) -> Seq<int>
    decreases memories.len(),
{
    if memories.len() == 0 {
        Seq::empty()
    } else {
        let earlier = places_of(memories.drop_last(), p);
        if p(memories.last()) {
            earlier.push(memories.len() - 1)
        } else {
            earlier
        }
    }
}

proof fn lemma_places(memories: Seq<MemoryView>, p: spec_fn(MemoryView) -> bool)
    ensures
        places_of(memories, p).no_duplicates(),
        places_of(memories, p).len() == memories.filter(p).len(),
        forall|k: int|
            0 <= k < places_of(memories, p).len() ==> 0 <= #[trigger] places_of(memories, p)[k]
                < memories.len() && p(memories[places_of(memories, p)[k]]) && memories.filter(p)[k]
                == memories[places_of(memories, p)[k]],
    decreases memories.len(),
{
    reveal(Seq::filter);
    if memories.len() > 0 {
        let shorter = memories.drop_last();
        lemma_places(shorter, p);
        let earlier = places_of(shorter, p);
        let places = places_of(memories, p);
        assert forall|k: int| 0 <= k < places.len() implies 0 <= #[trigger] places[k]
            < memories.len() && p(memories[places[k]]) && memories.filter(p)[k]
            == memories[places[k]] by {
            if k < earlier.len() {
                assert(places[k] == earlier[k]);
                assert(shorter[earlier[k]] == memories[earlier[k]]);
            }
        }
        assert forall|a: int, b: int| 0 <= a < b < places.len() implies places[a] != places[b] by {
            if b == earlier.len() {
                assert(0 <= earlier[a] < shorter.len());
            }
        }
    }
}

/// What a section lists is shown behind whatever stands before it.
proof fn lemma_listed_is_shown(
    before: Seq<char>,
    heading: Seq<char>,
    group: Seq<MemoryView>,
    k: int,
)
    requires
        0 <= k < shown_of(group),
        group.len() <= usize::MAX,
    ensures
        shows(before + profile_section(heading, group), by_worth(group)[k]),
{
    sorting_is_possible(profile_keys(group));
    let best = by_worth(group).take(shown_of(group) as int);
    let nothing = Seq::<char>::empty();
    lemma_items(best);
    each_part_is_had(items(best), k);
    let head = "\n## "@ + heading + "\n"@;
    parts_of_parts_are_had(before + head, items(best).flatten(), nothing, items(best)[k]);
    assert(before + head + items(best).flatten() + nothing =~= before + profile_section(
        heading,
        group,
    ));
    assert(items(best)[k] == item(by_worth(group)[k]));
}

/// One group more: what was shown stays shown, and what its section lists is
/// shown as well.
proof fn lemma_group_is_shown(
    draft: DraftView,
    heading: Seq<char>,
    memories: Seq<MemoryView>,
    p: spec_fn(MemoryView) -> bool,
    limit: Option<nat>,
    places: Seq<int>,
) -> (more: Seq<int>)
    requires
        memories.len() <= usize::MAX,
        are_shown(places, draft.output, memories),
        places.len() == draft.included,
        forall|k: int| 0 <= k < places.len() ==> !p(memories[#[trigger] places[k]]),
    ensures
        ({
            let group = memories.filter(p);
            let grown = with_group(draft, heading, group, memories.len(), limit);
            &&& are_shown(more, grown.output, memories)
            &&& more.len() == grown.included
            &&& forall|k: int|
                0 <= k < more.len() ==> places.contains(#[trigger] more[k]) || p(memories[more[k]])
        }),
{
    let group = memories.filter(p);
    let grown = with_group(draft, heading, group, memories.len(), limit);
    lemma_places(memories, p);
    let own = places_of(memories, p);
    if grown == draft {
        assert forall|k: int| 0 <= k < places.len() implies places.contains(
            #[trigger] places[k],
        ) by {}
        places
    } else {
        let section = profile_section(heading, group);
        sorting_is_possible(profile_keys(group));
        let order = sorted_places(profile_keys(group));
        assert(is_arrangement(order, group.len()));
        let fresh = Seq::new(shown_of(group), |k: int| own[order[k] as int]);
        let more = places + fresh;
        let nothing = Seq::<char>::empty();
        assert forall|k: int| 0 <= k < fresh.len() implies 0 <= #[trigger] fresh[k]
            < memories.len() && p(memories[fresh[k]]) && shows(
            grown.output,
            memories[fresh[k]],
        ) by {
            assert(order[k] < group.len());
            assert(own[order[k] as int] == fresh[k]);
            assert(by_worth(group)[k] == group[order[k] as int]);
            lemma_listed_is_shown(draft.output, heading, group, k);
        }
        assert forall|k: int| 0 <= k < more.len() implies 0 <= #[trigger] more[k] < memories.len()
            && shows(grown.output, memories[more[k]]) && (places.contains(more[k]) || p(
            memories[more[k]],
        )) by {
            if k < places.len() {
                assert(more[k] == places[k]);
                assert(shows(draft.output, memories[places[k]]));
                parts_of_parts_are_had(nothing, draft.output, section, item(memories[places[k]]));
                assert(nothing + draft.output + section =~= grown.output);
            } else {
                assert(more[k] == fresh[k - places.len()]);
            }
        }
        assert forall|a: int, b: int| 0 <= a < b < more.len() implies more[a] != more[b] by {
            if b < places.len() {
                assert(more[a] == places[a] && more[b] == places[b]);
            } else if a < places.len() {
                assert(more[b] == fresh[b - places.len()]);
                assert(!p(memories[places[a]]));
            } else {
                let (x, y) = (a - places.len(), b - places.len());
                assert(more[a] == fresh[x] && more[b] == fresh[y]);
                assert(order[x] != order[y]);
                assert(order[x] < group.len() && order[y] < group.len());
                assert(own[order[x] as int] != own[order[y] as int]);
            }
        }
        more
    }
}

proof fn lemma_categories_are_shown(
    draft: DraftView,
    memories: Seq<MemoryView>,
    n: nat,
    limit: Option<nat>,
) -> (places: Seq<int>)
    requires
        memories.len() <= usize::MAX,
        n <= 8,
        draft.included == 0,
    ensures
        ({
            let grown = with_categories(draft, memories, profile_order(), n, limit);
            &&& are_shown(places, grown.output, memories)
            &&& places.len() == grown.included
            &&& forall|k: int|
                0 <= k < places.len() ==> profile_order().take(n as int).contains(
                    memories[#[trigger] places[k]].category,
                )
        }),
    decreases n,
{
    let order = profile_order();
    if n == 0 {
        Seq::empty()
    } else {
        let category = order[n - 1];
        let before = with_categories(draft, memories, order, (n - 1) as nat, limit);
        let places = lemma_categories_are_shown(draft, memories, (n - 1) as nat, limit);
        let p = |m: MemoryView| m.category == category;
        groups_are_what_belongs_together(memories, category, arbitrary());
        let (fewer, more) = (order.take(n - 1), order.take(n as int));
        assert forall|k: int| 0 <= k < places.len() implies !p(
            memories[#[trigger] places[k]],
        ) by {
            let c = memories[places[k]].category;
            assert(fewer.contains(c));
            let i = choose|i: int| 0 <= i < fewer.len() && fewer[i] == c;
            assert(order[i] == c);
            lemma_order_has_no_repetition(i, n - 1);
        }
        let found = lemma_group_is_shown(before, heading_of(category), memories, p, limit, places);
        assert forall|k: int| 0 <= k < found.len() implies more.contains(
            memories[#[trigger] found[k]].category,
        ) by {
            let c = memories[found[k]].category;
            if places.contains(found[k]) {
                let j = choose|j: int| 0 <= j < places.len() && places[j] == found[k];
                assert(fewer.contains(memories[places[j]].category));
                let i = choose|i: int| 0 <= i < fewer.len() && fewer[i] == c;
                assert(more[i] == c);
            } else {
                assert(more[n - 1] == c);
            }
        }
        found
    }
}

proof fn lemma_order_has_no_repetition(i: int, j: int)
    requires
        0 <= i < j < 8,
    ensures
        profile_order()[i] != profile_order()[j],
{
}

proof fn lemma_sections_are_shown(
    handle: Seq<char>,
    memories: Seq<MemoryView>,
    now: Timestamp,
    limit: Option<nat>,
) -> (places: Seq<int>)
    requires
        memories.len() <= usize::MAX,
    ensures
        are_shown(places, sections(handle, memories, now, limit).output, memories),
        places.len() == sections(handle, memories, now, limit).included,
{
    let start = DraftView { output: profile_header(handle, now), included: 0 };
    let order = profile_order();
    let middle = with_categories(start, memories, order, order.len(), limit);
    let places = lemma_categories_are_shown(start, memories, 8, limit);
    let p = |m: MemoryView| m.category is Custom;
    groups_are_what_belongs_together(memories, CategoryView::Decision, now);
    assert forall|k: int| 0 <= k < places.len() implies !p(memories[#[trigger] places[k]]) by {
        let c = memories[places[k]].category;
        assert(order.take(8).contains(c));
        let i = choose|i: int| 0 <= i < order.take(8).len() && order.take(8)[i] == c;
        assert(order[i] == c);
    }
    lemma_group_is_shown(middle, "other"@, memories, p, limit, places)
}

/// Every memory that a profile counts as shown is shown: there are as many
/// memories of the list as it counts, no two of them at one place, whose lines,
/// and so all that they say, are parts of its text.
pub proof fn what_is_counted_is_shown(
    handle: Seq<char>,
    memories: Seq<MemoryView>,
    now: Timestamp,
    budget: nat,
)
    requires
        0 < memories.len() <= usize::MAX,
    ensures
        exists|places: Seq<int>|
            places.len() == profile_body(handle, memories, now, budget).included
                && #[trigger] are_shown(places, profile(handle, memories, now, budget), memories),
{
    let body = profile_body(handle, memories, now, budget);
    let text = profile(handle, memories, now, budget);
    let limit = if body == sections(handle, memories, now, None) {
        None
    } else {
        Some(budget)
    };
    let places = lemma_sections_are_shown(handle, memories, now, limit);
    let nothing = Seq::<char>::empty();
    let note = profile_note(body.included, memories.len());
    assert forall|k: int| 0 <= k < places.len() implies 0 <= #[trigger] places[k] < memories.len()
        && shows(text, memories[places[k]]) by {
        parts_of_parts_are_had(nothing, body.output, note, item(memories[places[k]]));
        assert(nothing + body.output + note =~= text);
    }
    assert(are_shown(places, text, memories));
}

/// What a text shows of a memory is all that it says.
pub proof fn a_shown_memory_is_shown_in_full(text: Seq<char>, memory: MemoryView)
    requires
        shows(text, memory),
    ensures
        has_part(text, flat(memory.content)),
{
    lines_begin_with_the_content(memory);
    parts_are_had("- "@, profile_line(memory), "\n"@);
    having_parts_is_transitive(text, item(memory), profile_line(memory));
    having_parts_is_transitive(text, profile_line(memory), flat(memory.content));
}

/// Sections that need no cut show all of their memories.
proof fn lemma_all_are_counted(draft: DraftView, memories: Seq<MemoryView>, n: nat)
    requires
        n <= 8,
        forall|i: int|
            0 <= i < 8 ==> in_category(memories, #[trigger] profile_order()[i]).len() <= 8,
    ensures
        with_categories(draft, memories, profile_order(), n, None).included == draft.included
            + grouped(memories, profile_order(), n),
    decreases n,
{
    if n > 0 {
        lemma_all_are_counted(draft, memories, (n - 1) as nat);
        assert(in_category(memories, profile_order()[n - 1]).len() <= 8);
    }
}

/// A profile whose sections all fit the budget, and none of which has to be
/// cut, shows every memory.
pub proof fn a_profile_that_fits_shows_everything(
    handle: Seq<char>,
    memories: Seq<MemoryView>,
    now: Timestamp,
    budget: nat,
)
    requires
        0 < memories.len() <= usize::MAX,
        byte_len(sections(handle, memories, now, None).output) <= budget,
        forall|i: int|
            0 <= i < 8 ==> in_category(memories, #[trigger] profile_order()[i]).len() <= 8,
        in_no_built_in(memories).len() <= 8,
    ensures
        forall|i: int|
            0 <= i < memories.len() ==> shows(
                profile(handle, memories, now, budget),
                #[trigger] memories[i],
            ),
        profile(handle, memories, now, budget) == sections(handle, memories, now, None).output,
{
    let start = DraftView { output: profile_header(handle, now), included: 0 };
    lemma_all_grouped(memories);
    lemma_all_are_counted(start, memories, 8);
    assert(profile_order().len() == 8);
    let body = profile_body(handle, memories, now, budget);
    assert(body.included == memories.len());
    assert(body.output + Seq::<char>::empty() =~= body.output);
    what_is_counted_is_shown(handle, memories, now, budget);
    let text = profile(handle, memories, now, budget);
    let places = choose|places: Seq<int>|
        places.len() == body.included && #[trigger] are_shown(places, text, memories);
    let order = places.map_values(|p: int| p as usize);
    assert forall|a: int, b: int| 0 <= a < b < order.len() implies order[a] != order[b] by {
        assert(0 <= places[a] < memories.len() && 0 <= places[b] < memories.len());
        assert(places[a] != places[b]);
    }
    assert forall|i: int| 0 <= i < order.len() implies (#[trigger] order[i]) < memories.len() by {
        assert(0 <= places[i] < memories.len());
    }
    assert(is_arrangement(order, memories.len()));
    assert forall|i: int| 0 <= i < memories.len() implies shows(text, #[trigger] memories[i]) by {
        crate::order::lemma_arrangement_covers(order, memories.len(), i as usize);
        let k = choose|k: int| 0 <= k < order.len() && order[k] == i as usize;
        assert(0 <= places[k] < memories.len());
        assert(shows(text, memories[places[k]]));
    }
}

/// A profile is its header, its sections in their order, and the note: between
/// them stands nothing else.
pub proof fn profiles_are_sections_in_order(
    handle: Seq<char>,
    memories: Seq<MemoryView>,
    now: Timestamp,
    limit: Option<nat>,
)
    ensures
        exists|parts: Seq<Seq<char>>|
            parts.len() == 9 && sections(handle, memories, now, limit).output
                == "# Memory profile: "@ + handle + " (updated "@ + now.day() + ")\n"@
                + #[trigger] parts.flatten() && (forall|i: int|
                0 <= i < 8 ==> (#[trigger] parts[i]).len() == 0 || parts[i] == profile_section(
                    heading_of(profile_order()[i]),
                    in_category(memories, profile_order()[i]),
                )) && (parts[8].len() == 0 || parts[8] == profile_section(
                "other"@,
                in_no_built_in(memories),
            )),
{
    let start = DraftView { output: profile_header(handle, now), included: 0 };
    let order = profile_order();
    let parts = lemma_parts(start, memories, 8, limit);
    let middle = with_categories(start, memories, order, 8, limit);
    let group = in_no_built_in(memories);
    let grown = with_group(middle, "other"@, group, memories.len(), limit);
    let nothing = Seq::<char>::empty();
    let last = if grown == middle {
        nothing
    } else {
        profile_section("other"@, group)
    };
    let all = parts.push(last);
    lemma_flatten_push(parts, last);
    assert(all.drop_last() =~= parts);
    assert(order.len() == 8);
    assert(sections(handle, memories, now, limit).output =~= profile_header(handle, now)
        + all.flatten());
    assert(all.len() == 9);
    assert forall|i: int| 0 <= i < 8 implies (#[trigger] all[i]).len() == 0 || all[i]
        == profile_section(heading_of(order[i]), in_category(memories, order[i])) by {
        assert(all[i] == parts[i]);
    }
}

proof fn lemma_flatten_push(parts: Seq<Seq<char>>, last: Seq<char>)
    ensures
        parts.push(last).flatten() == parts.flatten() + last,
{
    parts.lemma_flatten_and_flatten_alt_are_equivalent();
    parts.push(last).lemma_flatten_and_flatten_alt_are_equivalent();
    assert(parts.push(last).drop_last() =~= parts);
}

proof fn lemma_parts(draft: DraftView, memories: Seq<MemoryView>, n: nat, limit: Option<nat>) -> (parts:
    Seq<Seq<char>>)
    requires
        n <= 8,
    ensures
        parts.len() == n,
        with_categories(draft, memories, profile_order(), n, limit).output == draft.output
            + parts.flatten(),
        forall|i: int|
            0 <= i < n ==> (#[trigger] parts[i]).len() == 0 || parts[i] == profile_section(
                heading_of(profile_order()[i]),
                in_category(memories, profile_order()[i]),
            ),
    decreases n,
{
    let order = profile_order();
    let nothing = Seq::<char>::empty();
    if n == 0 {
        let none = Seq::<Seq<char>>::empty();
        assert(draft.output + none.flatten() =~= draft.output);
        none
    } else {
        let fewer = lemma_parts(draft, memories, (n - 1) as nat, limit);
        let before = with_categories(draft, memories, order, (n - 1) as nat, limit);
        let after = with_categories(draft, memories, order, n, limit);
        let section = profile_section(heading_of(order[n - 1]), in_category(memories, order[n - 1]));
        let last = if after == before {
            nothing
        } else {
            section
        };
        let parts = fewer.push(last);
        lemma_flatten_push(fewer, last);
        assert(after.output =~= draft.output + parts.flatten());
        assert forall|i: int| 0 <= i < n implies (#[trigger] parts[i]).len() == 0 || parts[i]
            == profile_section(heading_of(order[i]), in_category(memories, order[i])) by {
            if i < n - 1 {
                assert(parts[i] == fewer[i]);
            }
        }
        parts
    }
}

/// A user without memories is told how to save one.
pub proof fn a_profile_of_nothing_invites(
    handle: Seq<char>,
    memories: Seq<MemoryView>,
    now: Timestamp,
    budget: nat,
)
    requires
        memories.len() == 0,
    ensures
        profile(handle, memories, now, budget) == "# Memory profile: "@ + handle + " (updated "@
            + now.day() + ")\n"@
            + "\nNo memories stored yet. Save one with the `memory_save` tool when the user states a durable preference, decision or fact.\n"@,
{
}

} // verus!
