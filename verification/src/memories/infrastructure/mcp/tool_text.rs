//! What the tools say to an agent.
//!
//! Tool output lands in the agent's context window, so it is terse; and an
//! agent repeats it to the user, so it never overstates what happened.
use super::memory_toolbox::{SaveOutcome, ToolMemory};
use crate::text::{
    all_chars, decimal, decimal_wide, flat, flat_texts_have_one_line, flatten, join, joined,
    joining_keeps_chars, texts, trim_end, trimmed_end,
};
use vstd::prelude::*;
use vstd::string::StringExecFns;

verus! {

pub const PROFILE_DESCRIPTION: &'static str =
    "A short digest of who this user is: their standing preferences, decisions, and durable project facts, grouped by category.\n\nRead this at the start of a session, before doing work. It is the context the user should not have to repeat.";

pub const NOTHING_MATCHED: &'static str =
    "No memories matched. Nothing has been stored on this subject.";

pub const NOTHING_NEW: &'static str =
    "Nothing new was stored \u{2014} either this is already known, or there was              nothing in it that stays true beyond this conversation. Do not tell the              user it was saved.";

pub const NOTHING_STORED: &'static str = "Nothing was stored.";

pub const NOTHING_DISTILLED: &'static str =
    "Nothing from this session needed remembering. That is the usual outcome \u{2014} most sessions produce nothing that stays true after they end.";

pub const NOTHING_TO_FORGET: &'static str = "No memories matched, so there is nothing to forget.";

pub const HOW_TO_DELETE: &'static str =
    "\nTo delete, call memory_forget again with the ids you want removed and confirm: true. Only do this if the user asked for it.";

pub const LATER: &'static str = "\nThey will be available in future sessions.";

/// The text of the score at a place, where there is one.
pub open spec fn score_text(scores: Seq<Option<String>>, i: int) -> Option<Seq<char>> {
    if 0 <= i < scores.len() && scores[i] is Some {
        Some(scores[i]->0@)
    } else {
        None
    }
}

/// What is said of a memory behind its content.
pub open spec fn annotations(memory: ToolMemory, score: Option<Seq<char>>) -> Seq<Seq<char>> {
    let saved = seq!["saved "@ + memory.created_at.day()];
    let scored = match score {
        Some(s) => saved.push("score "@ + s),
        None => saved,
    };
    if memory.tags@.len() == 0 {
        scored
    } else {
        scored.push(joined(texts(memory.tags@), ", "@))
    }
}

/// A memory's line in a recall, without its end.
pub open spec fn recall_line(memory: ToolMemory, place: nat, score: Option<Seq<char>>) -> Seq<char> {
    decimal(place) + ". ["@ + memory.category@ + "] "@ + flat(memory.content@) + " ("@ + joined(
        annotations(memory, score),
        ", "@,
    ) + ")"@
}

/// The lines of the first `n` memories.
pub open spec fn recall_lines(
    memories: Seq<ToolMemory>,
    scores: Seq<Option<String>>,
    n: nat,
) -> Seq<char>
    decreases n,
{
    if n == 0 {
        Seq::empty()
    } else {
        recall_lines(memories, scores, (n - 1) as nat) + recall_line(
            memories[n - 1],
            n,
            score_text(scores, n - 1),
        ) + "\n"@
    }
}

/// A recall's results: numbered, one line each, the category first.
///
/// `scores` holds the text of each memory's score, where it has one.
pub fn render_recall(memories: &Vec<ToolMemory>, scores: &Vec<Option<String>>) -> (text: String)
    ensures
        text@ == (if memories@.len() == 0 {
            NOTHING_MATCHED@
        } else {
            trimmed_end(recall_lines(memories@, scores@, memories@.len()))
        }),
{
    if memories.len() == 0 {
        return NOTHING_MATCHED.to_owned();
    }
    let mut output = String::new();
    let mut i: usize = 0;
    assert(output@ =~= Seq::empty());
    while i < memories.len()
        invariant
            0 <= i <= memories@.len(),
            output@ == recall_lines(memories@, scores@, i as nat),
        decreases memories@.len() - i,
    {
        let memory = &memories[i];
        let ghost before = output@;
        let mut notes: Vec<String> = Vec::new();
        let mut saved = "saved ".to_owned();
        saved.append(memory.created_at.day_label().as_str());
        notes.push(saved);
        if i < scores.len() {
            match &scores[i] {
                Some(score) => {
                    let mut scored = "score ".to_owned();
                    scored.append(score.as_str());
                    notes.push(scored);
                },
                None => {},
            }
        }
        if memory.tags.len() > 0 {
            notes.push(join(&memory.tags, ", "));
        }
        let mut line = decimal_wide(i as u128 + 1);
        line.append(". [");
        line.append(memory.category.as_str());
        line.append("] ");
        line.append(flatten(memory.content.as_str()).as_str());
        line.append(" (");
        line.append(join(&notes, ", ").as_str());
        line.append(")");
        proof {
            assert(texts(notes@) =~= annotations(*memory, score_text(scores@, i as int)));
            assert(line@ == recall_line(*memory, (i + 1) as nat, score_text(scores@, i as int)));
        }
        output.append(line.as_str());
        output.append("\n");
        i += 1;
    }
    trim_end(output.as_str())
}

/// A memory's line in a list, without its end.
pub open spec fn kept_line(memory: ToolMemory) -> Seq<char> {
    "- ["@ + memory.category@ + "] "@ + flat(memory.content@) + " (id "@ + memory.id@ + ")"@
}

pub open spec fn kept_lines(memories: Seq<ToolMemory>, n: nat) -> Seq<char>
    decreases n,
{
    if n == 0 {
        Seq::empty()
    } else {
        kept_lines(memories, (n - 1) as nat) + kept_line(memories[n - 1]) + "\n"@
    }
}

fn list_kept(memories: &Vec<ToolMemory>) -> (text: String)
    ensures
        text@ == kept_lines(memories@, memories@.len()),
{
    let mut output = String::new();
    let mut i: usize = 0;
    assert(output@ =~= Seq::empty());
    while i < memories.len()
        invariant
            0 <= i <= memories@.len(),
            output@ == kept_lines(memories@, i as nat),
        decreases memories@.len() - i,
    {
        let memory = &memories[i];
        let mut line = "- [".to_owned();
        line.append(memory.category.as_str());
        line.append("] ");
        line.append(flatten(memory.content.as_str()).as_str());
        line.append(" (id ");
        line.append(memory.id.as_str());
        line.append(")");
        output.append(line.as_str());
        output.append("\n");
        i += 1;
    }
    output
}

/// What a save did.
pub open spec fn saved_text(outcome: SaveOutcome) -> Seq<char> {
    let memories = outcome.memories@;
    if memories.len() == 0 {
        if outcome.understanding {
            NOTHING_NEW@
        } else {
            NOTHING_STORED@
        }
    } else if memories.len() == 1 {
        "Saved as ["@ + memories[0].category@ + "] (id "@ + memories[0].id@ + "): "@ + flat(
            memories[0].content@,
        ) + "\nIt will be available in future sessions."@
    } else {
        "Saved "@ + decimal(memories.len()) + " memories:\n\n"@ + kept_lines(
            memories,
            memories.len(),
        ) + LATER@
    }
}

/// What a save did, phrased so that an agent can repeat it without
/// overstating it: nothing stored is never called saved.
pub fn render_saved(outcome: &SaveOutcome) -> (text: String)
    ensures
        text@ == saved_text(*outcome),
{
    let memories = &outcome.memories;
    if memories.len() == 0 {
        return if outcome.understanding {
            NOTHING_NEW.to_owned()
        } else {
            NOTHING_STORED.to_owned()
        };
    }
    if memories.len() == 1 {
        let mut output = "Saved as [".to_owned();
        output.append(memories[0].category.as_str());
        output.append("] (id ");
        output.append(memories[0].id.as_str());
        output.append("): ");
        output.append(flatten(memories[0].content.as_str()).as_str());
        output.append("\nIt will be available in future sessions.");
        return output;
    }
    let mut output = "Saved ".to_owned();
    output.append(decimal_wide(memories.len() as u128).as_str());
    output.append(" memories:\n\n");
    output.append(list_kept(memories).as_str());
    output.append(LATER);
    output
}

/// What a session left behind.
pub open spec fn distilled_text(memories: Seq<ToolMemory>) -> Seq<char> {
    if memories.len() == 0 {
        NOTHING_DISTILLED@
    } else {
        "Distilled "@ + decimal(memories.len()) + " memor"@ + (if memories.len() == 1 {
            "y"@
        } else {
            "ies"@
        }) + " from this session:\n\n"@ + kept_lines(memories, memories.len()) + LATER@
    }
}

/// What a session left behind. Nothing is the ordinary outcome, and is
/// phrased as a success.
pub fn render_distilled(memories: &Vec<ToolMemory>) -> (text: String)
    ensures
        text@ == distilled_text(memories@),
{
    if memories.len() == 0 {
        return NOTHING_DISTILLED.to_owned();
    }
    let mut output = "Distilled ".to_owned();
    output.append(decimal_wide(memories.len() as u128).as_str());
    output.append(" memor");
    if memories.len() == 1 {
        output.append("y");
    } else {
        output.append("ies");
    }
    output.append(" from this session:\n\n");
    output.append(list_kept(memories).as_str());
    output.append(LATER);
    output
}

/// A candidate's line, without its end.
pub open spec fn candidate_line(memory: ToolMemory) -> Seq<char> {
    "- "@ + memory.id@ + " \u{2014} ["@ + memory.category@ + "] "@ + flat(memory.content@)
}

pub open spec fn candidate_lines(memories: Seq<ToolMemory>, n: nat) -> Seq<char>
    decreases n,
{
    if n == 0 {
        Seq::empty()
    } else {
        candidate_lines(memories, (n - 1) as nat) + candidate_line(memories[n - 1]) + "\n"@
    }
}

pub open spec fn candidates_text(memories: Seq<ToolMemory>) -> Seq<char> {
    if memories.len() == 0 {
        NOTHING_TO_FORGET@
    } else {
        "Nothing has been deleted yet. These memories match:\n\n"@ + candidate_lines(
            memories,
            memories.len(),
        ) + HOW_TO_DELETE@
    }
}

/// What would be deleted, and how to do it. That nothing has been deleted
/// yet is said outright.
pub fn render_forget_candidates(memories: &Vec<ToolMemory>) -> (text: String)
    ensures
        text@ == candidates_text(memories@),
{
    if memories.len() == 0 {
        return NOTHING_TO_FORGET.to_owned();
    }
    let mut lines = String::new();
    let mut i: usize = 0;
    assert(lines@ =~= Seq::empty());
    while i < memories.len()
        invariant
            0 <= i <= memories@.len(),
            lines@ == candidate_lines(memories@, i as nat),
        decreases memories@.len() - i,
    {
        let memory = &memories[i];
        let mut line = "- ".to_owned();
        line.append(memory.id.as_str());
        line.append(" \u{2014} [");
        line.append(memory.category.as_str());
        line.append("] ");
        line.append(flatten(memory.content.as_str()).as_str());
        lines.append(line.as_str());
        lines.append("\n");
        i += 1;
    }
    let mut output = "Nothing has been deleted yet. These memories match:\n\n".to_owned();
    output.append(lines.as_str());
    output.append(HOW_TO_DELETE);
    output
}

/// What a deletion did.
pub open spec fn forgotten_text(count: nat) -> Seq<char> {
    if count == 0 {
        "No memories were deleted."@
    } else if count == 1 {
        "Deleted 1 memory. It will not appear in future sessions."@
    } else {
        "Deleted "@ + decimal(count) + " memories. They will not appear in future sessions."@
    }
}

pub fn render_forgotten(count: usize) -> (text: String)
    ensures
        text@ == forgotten_text(count as nat),
{
    if count == 0 {
        "No memories were deleted.".to_owned()
    } else if count == 1 {
        "Deleted 1 memory. It will not appear in future sessions.".to_owned()
    } else {
        let mut output = "Deleted ".to_owned();
        output.append(decimal_wide(count as u128).as_str());
        output.append(" memories. They will not appear in future sessions.");
        output
    }
}

/// The predicate of the characters that do not end a line.
pub open spec fn no_break() -> spec_fn(char) -> bool {
    |c: char| c != '\n'
}

proof fn lemma_decimal_is_one_line(n: nat)
    ensures
        all_chars(decimal(n), no_break()),
    decreases n,
{
    if n >= 10 {
        lemma_decimal_is_one_line(n / 10);
    }
}

/// A memory takes one line of a recall, however many lines its content has,
/// where its category, its tags, its day and its score text have one.
pub proof fn a_recalled_memory_is_one_line(
    memory: ToolMemory,
    place: nat,
    score: Option<Seq<char>>,
)
    requires
        all_chars(memory.category@, no_break()),
        all_chars(memory.created_at.day(), no_break()),
        score is Some ==> all_chars(score->0, no_break()),
        forall|k: int|
            0 <= k < memory.tags@.len() ==> all_chars(
                #[trigger] texts(memory.tags@)[k],
                no_break(),
            ),
    ensures
        all_chars(recall_line(memory, place, score), no_break()),
{
    lemma_decimal_is_one_line(place);
    flat_texts_have_one_line(memory.content@);
    reveal_strlit(", ");
    reveal_strlit("saved ");
    reveal_strlit("score ");
    reveal_strlit(". [");
    reveal_strlit("] ");
    reveal_strlit(" (");
    reveal_strlit(")");
    assert(all_chars(", "@, no_break()));
    let notes = annotations(memory, score);
    joining_keeps_chars(texts(memory.tags@), ", "@, no_break());
    assert forall|k: int| 0 <= k < notes.len() implies all_chars(#[trigger] notes[k], no_break()) by {
        let saved = "saved "@ + memory.created_at.day();
        assert(all_chars(saved, no_break()));
        if score is Some {
            assert(all_chars("score "@ + score->0, no_break()));
        }
    }
    joining_keeps_chars(notes, ", "@, no_break());
    assert(all_chars(flat(memory.content@), no_break()));
}

/// The lines of a recall, each numbered by its place.
pub open spec fn numbered(memories: Seq<ToolMemory>, scores: Seq<Option<String>>) -> Seq<Seq<char>> {
    Seq::new(
        memories.len(),
        |i: int| recall_line(memories[i], (i + 1) as nat, score_text(scores, i)),
    )
}

proof fn lemma_recall_lines(memories: Seq<ToolMemory>, scores: Seq<Option<String>>, n: nat)
    requires
        0 < n <= memories.len(),
    ensures
        recall_lines(memories, scores, n) == joined(
            numbered(memories, scores).take(n as int),
            "\n"@,
        ) + "\n"@,
    decreases n,
{
    let lines = numbered(memories, scores);
    let part = lines.take(n as int);
    let nothing = Seq::<char>::empty();
    if n == 1 {
        assert(recall_lines(memories, scores, 0) == nothing);
        assert(part[0] == lines[0]);
        assert(nothing + lines[0] + "\n"@ =~= lines[0] + "\n"@);
    } else {
        lemma_recall_lines(memories, scores, (n - 1) as nat);
        assert(part.drop_last() =~= lines.take(n - 1));
        assert(part.last() == lines[n - 1]);
    }
}

/// A recall is told one memory to a line, all of them and in order, each with
/// its number.
pub proof fn recalls_are_told_line_by_line(
    memories: Seq<ToolMemory>,
    scores: Seq<Option<String>>,
)
    requires
        memories.len() > 0,
    ensures
        trimmed_end(recall_lines(memories, scores, memories.len())) == joined(
            Seq::new(
                memories.len(),
                |i: int| recall_line(memories[i], (i + 1) as nat, score_text(scores, i)),
            ),
            "\n"@,
        ),
{
    let lines = numbered(memories, scores);
    let n = memories.len();
    lemma_recall_lines(memories, scores, n);
    assert(lines.take(n as int) =~= lines);
    let text = joined(lines, "\n"@);
    reveal_strlit("\n");
    reveal_strlit(")");
    let last = lines[n - 1];
    assert(last.last() == ')' && last.len() > 0);
    if n > 1 {
        assert(lines.last() == last);
    }
    assert(text.len() > 0 && text.last() == ')');
    let whole = text + "\n"@;
    assert(whole.last() == '\n');
    assert(whole.drop_last() =~= text);
    assert(crate::text::white()('\n') && !crate::text::white()(')'));
    assert(crate::text::drop_end_while(whole, crate::text::white())
        == crate::text::drop_end_while(text, crate::text::white()));
    assert(crate::text::drop_end_while(text, crate::text::white()) == text);
}

/// A line of a recall says which memory it is about: its category and all that
/// it says, and when it was saved.
pub proof fn recall_lines_say_what_a_memory_is(
    memory: ToolMemory,
    place: nat,
    score: Option<Seq<char>>,
)
    ensures
        ({
            let line = recall_line(memory, place, score);
            &&& crate::text::has_part(line, flat(memory.content@))
            &&& crate::text::has_part(line, "["@ + memory.category@ + "]"@)
            &&& (decimal(place) + ". "@).is_prefix_of(line)
            &&& crate::text::has_part(line, joined(annotations(memory, score), ", "@))
            &&& annotations(memory, score)[0] == "saved "@ + memory.created_at.day()
            &&& score matches Some(s) ==> annotations(memory, score)[1] == "score "@ + s
            &&& memory.tags@.len() > 0 ==> annotations(memory, score).last() == joined(
                texts(memory.tags@),
                ", "@,
            )
        }),
{
    let line = recall_line(memory, place, score);
    let notes = joined(annotations(memory, score), ", "@);
    let said = flat(memory.content@);
    reveal_strlit(". [");
    reveal_strlit(". ");
    reveal_strlit("[");
    reveal_strlit("]");
    reveal_strlit("] ");
    let a = decimal(place) + ". ["@ + memory.category@ + "] "@;
    crate::text::parts_are_had(a, said, " ("@ + notes + ")"@);
    assert(a + said + (" ("@ + notes + ")"@) =~= line);
    let b = a + said + " ("@;
    crate::text::parts_are_had(b, notes, ")"@);
    assert(b + notes + ")"@ =~= line);
    let c = decimal(place) + ". "@;
    assert(". ["@ =~= ". "@ + "["@);
    assert("] "@ =~= "]"@ + seq![' ']);
    let rest = seq![' '] + said + " ("@ + notes + ")"@;
    let named = "["@ + memory.category@ + "]"@;
    crate::text::parts_are_had(c, named, rest);
    assert(c + named + rest =~= line);
    assert(c =~= line.subrange(0, c.len() as int));
}

proof fn lemma_kept_lines(memories: Seq<ToolMemory>, n: nat, i: int)
    requires
        0 <= i < n <= memories.len(),
    ensures
        crate::text::has_part(kept_lines(memories, n), kept_line(memories[i]) + "\n"@),
    decreases n,
{
    let before = kept_lines(memories, (n - 1) as nat);
    let wanted = kept_line(memories[i]) + "\n"@;
    crate::text::a_line_more(before, kept_line(memories[n - 1]), "\n"@, wanted);
    if i < n - 1 {
        lemma_kept_lines(memories, (n - 1) as nat, i);
    }
}

/// A save tells every memory that it stored, with its category, its identifier
/// and all that it says, and how many there are; where it stored none, it says
/// so.
pub proof fn saves_tell_what_was_stored(outcome: SaveOutcome, i: int)
    ensures
        ({
            let memories = outcome.memories@;
            let text = saved_text(outcome);
            &&& memories.len() == 0 && outcome.understanding ==> text == NOTHING_NEW@
            &&& memories.len() == 0 && !outcome.understanding ==> text == NOTHING_STORED@
            &&& memories.len() == 1 ==> text == "Saved as ["@ + memories[0].category@ + "] (id "@
                + memories[0].id@ + "): "@ + flat(memories[0].content@)
                + "\nIt will be available in future sessions."@
            &&& memories.len() > 1 ==> ("Saved "@ + decimal(memories.len())
                + " memories:\n\n"@).is_prefix_of(text)
            &&& memories.len() > 1 && 0 <= i < memories.len() ==> crate::text::has_part(
                text,
                "- ["@ + memories[i].category@ + "] "@ + flat(memories[i].content@) + " (id "@
                    + memories[i].id@ + ")"@ + "\n"@,
            )
        }),
{
    let memories = outcome.memories@;
    let text = saved_text(outcome);
    if memories.len() > 1 {
        let head = "Saved "@ + decimal(memories.len()) + " memories:\n\n"@;
        let lines = kept_lines(memories, memories.len());
        assert(head =~= text.subrange(0, head.len() as int));
        if 0 <= i < memories.len() {
            lemma_kept_lines(memories, memories.len(), i);
            crate::text::parts_of_parts_are_had(
                head,
                lines,
                LATER@,
                kept_line(memories[i]) + "\n"@,
            );
        }
    }
}

/// A distillation tells every memory that it left, and how many there are.
pub proof fn distillations_tell_what_was_left(memories: Seq<ToolMemory>, i: int)
    requires
        0 <= i < memories.len(),
    ensures
        crate::text::has_part(
            distilled_text(memories),
            "- ["@ + memories[i].category@ + "] "@ + flat(memories[i].content@) + " (id "@
                + memories[i].id@ + ")"@ + "\n"@,
        ),
        ("Distilled "@ + decimal(memories.len())).is_prefix_of(distilled_text(memories)),
{
    let text = distilled_text(memories);
    let head = "Distilled "@ + decimal(memories.len()) + " memor"@ + (if memories.len() == 1 {
        "y"@
    } else {
        "ies"@
    }) + " from this session:\n\n"@;
    lemma_kept_lines(memories, memories.len(), i);
    crate::text::parts_of_parts_are_had(
        head,
        kept_lines(memories, memories.len()),
        LATER@,
        kept_line(memories[i]) + "\n"@,
    );
    let start = "Distilled "@ + decimal(memories.len());
    assert(start =~= text.subrange(0, start.len() as int));
}

proof fn lemma_candidate_lines(memories: Seq<ToolMemory>, n: nat, i: int)
    requires
        0 <= i < n <= memories.len(),
    ensures
        crate::text::has_part(candidate_lines(memories, n), candidate_line(memories[i]) + "\n"@),
    decreases n,
{
    let before = candidate_lines(memories, (n - 1) as nat);
    let wanted = candidate_line(memories[i]) + "\n"@;
    crate::text::a_line_more(before, candidate_line(memories[n - 1]), "\n"@, wanted);
    if i < n - 1 {
        lemma_candidate_lines(memories, (n - 1) as nat, i);
    }
}

/// What would be deleted is shown in full, each candidate under the identifier
/// that deletes it; that nothing is deleted yet comes first, and how to do it
/// last.
pub proof fn candidates_are_all_shown(memories: Seq<ToolMemory>, i: int)
    requires
        0 <= i < memories.len(),
    ensures
        crate::text::has_part(
            candidates_text(memories),
            "- "@ + memories[i].id@ + " \u{2014} ["@ + memories[i].category@ + "] "@ + flat(
                memories[i].content@,
            ) + "\n"@,
        ),
        "Nothing has been deleted yet. These memories match:\n\n"@.is_prefix_of(
            candidates_text(memories),
        ),
        crate::text::has_part(candidates_text(memories), HOW_TO_DELETE@),
{
    let text = candidates_text(memories);
    let head = "Nothing has been deleted yet. These memories match:\n\n"@;
    let lines = candidate_lines(memories, memories.len());
    let nothing = Seq::<char>::empty();
    lemma_candidate_lines(memories, memories.len(), i);
    crate::text::parts_of_parts_are_had(
        head,
        lines,
        HOW_TO_DELETE@,
        candidate_line(memories[i]) + "\n"@,
    );
    assert(head =~= text.subrange(0, head.len() as int));
    crate::text::parts_are_had(head + lines, HOW_TO_DELETE@, nothing);
    assert(head + lines + HOW_TO_DELETE@ + nothing =~= text);
}

/// A deletion tells how many memories it deleted.
pub proof fn deletions_are_counted(count: nat)
    ensures
        count > 1 ==> forgotten_text(count) == "Deleted "@ + decimal(count)
            + " memories. They will not appear in future sessions."@,
        forgotten_text(0) == "No memories were deleted."@,
        forgotten_text(1) == "Deleted 1 memory. It will not appear in future sessions."@,
{
}

} // verus!
