//! The keyword leg's rules: what is indexed of a memory, and what a query in
//! natural language becomes.
use crate::memories::domain::memory::{Memory, MemoryView};
use crate::shared::ids::{uuid_of_text, MemoryId, UserId};
use crate::text::{
    all_chars, join, joined, joining_keeps_chars, split_words, splitting_undoes_joining, texts,
    trim, trimmed, words, words_are_solid, words_keep_chars,
};
use vstd::prelude::*;

verus! {

/// What is indexed of a memory. The identifier is matched exactly, the rest
/// word by word.
#[derive(Debug)]
pub struct TextDocument {
    pub memory_id: String,
    pub content: String,
    pub tags: String,
    pub category: String,
}

pub struct DocumentView {
    pub memory_id: Seq<char>,
    pub content: Seq<char>,
    pub tags: Seq<char>,
    pub category: Seq<char>,
}

impl View for TextDocument {
    type V = DocumentView;

    open spec fn view(&self) -> DocumentView {
        DocumentView {
            memory_id: self.memory_id@,
            content: self.content@,
            tags: self.tags@,
            category: self.category@,
        }
    }
}

/// What is indexed of a memory.
pub open spec fn document_of(memory: MemoryView) -> DocumentView {
    DocumentView {
        memory_id: memory.id.text(),
        content: memory.content,
        tags: joined(memory.tags, " "@),
        category: memory.category.name(),
    }
}

/// What is done to a user's index.
#[derive(Debug)]
pub enum IndexStep {
    /// Delete every document with this identifier.
    Delete(String),
    /// Add a document.
    Add(TextDocument),
    /// Commit, so that a search sees it.
    Commit,
}

/// What came of a search.
#[derive(Debug)]
pub enum SearchReply {
    /// The index could not read the query.
    Unparsed,
    /// The identifiers of the documents found, best first.
    Hits(Vec<String>),
}

/// An index without the documents of an identifier.
pub open spec fn without(index: Seq<DocumentView>, memory_id: Seq<char>) -> Seq<DocumentView>
    decreases index.len(),
{
    if index.len() == 0 {
        Seq::empty()
    } else if index.last().memory_id != memory_id {
        without(index.drop_last(), memory_id).push(index.last())
    } else {
        without(index.drop_last(), memory_id)
    }
}

/// An index after the first `n` of these steps.
pub open spec fn after_steps(
    index: Seq<DocumentView>,
    steps: Seq<IndexStep>,
    n: nat,
) -> Seq<DocumentView>
    decreases n,
{
    if n == 0 {
        index
    } else {
        let before = after_steps(index, steps, (n - 1) as nat);
        match steps[n - 1] {
            IndexStep::Delete(memory_id) => without(before, memory_id@),
            IndexStep::Add(document) => before.push(document@),
            IndexStep::Commit => before,
        }
    }
}

/// An index with a memory's document in place of any it had: indexing a memory
/// twice would find it twice.
pub open spec fn upserted(index: Seq<DocumentView>, memory: MemoryView) -> Seq<DocumentView> {
    without(index, memory.id.text()).push(document_of(memory))
}

/// An index without a memory.
pub open spec fn removed(index: Seq<DocumentView>, id: MemoryId) -> Seq<DocumentView> {
    without(index, id.text())
}

/// The characters that have a meaning in the index's query language.
pub open spec fn is_query_syntax(c: char) -> bool {
    c == '+' || c == '-' || c == '!' || c == '(' || c == ')' || c == '{' || c == '}' || c == '['
        || c == ']' || c == '^' || c == '"' || c == '~' || c == '*' || c == '?' || c == ':' || c
        == '\\' || c == '/'
}

pub open spec fn plain_char(c: char) -> char {
    if is_query_syntax(c) {
        ' '
    } else {
        c
    }
}

/// A text with its query syntax blanked out.
pub open spec fn blanked(query: Seq<char>) -> Seq<char> {
    query.map_values(|c: char| plain_char(c))
}

/// A text as words for the index: without query syntax, with single spaces.
pub open spec fn escaped(query: Seq<char>) -> Seq<char> {
    joined(words(blanked(query)), " "@)
}

/// The identifiers among texts, in order, what is none left out.
pub open spec fn ids_among(raws: Seq<Seq<char>>) -> Seq<MemoryId>
    decreases raws.len(),
{
    if raws.len() == 0 {
        Seq::empty()
    } else {
        match uuid_of_text(raws.last()) {
            Some(value) => ids_among(raws.drop_last()).push(MemoryId { value }),
            None => ids_among(raws.drop_last()),
        }
    }
}

fn query_syntax(c: char) -> (is: bool)
    ensures
        is == is_query_syntax(c),
{
    c == '+' || c == '-' || c == '!' || c == '(' || c == ')' || c == '{' || c == '}' || c == '['
        || c == ']' || c == '^' || c == '"' || c == '~' || c == '*' || c == '?' || c == ':' || c
        == '\\' || c == '/'
}

/// The words of a query, without what the query language would interpret:
/// callers send natural language, so punctuation is dropped, not honoured.
pub fn escape_query(query: &str) -> (words_only: String)
    ensures
        words_only@ == escaped(query@),
{
    let mut plain = String::new();
    assert(plain@ =~= blanked(query@).take(0));
    for c in it: query.chars()
        invariant
            it.seq() == query@,
            plain@ == blanked(query@).take(it.index() as int),
    {
        if query_syntax(c) {
            plain.push(' ');
        } else {
            plain.push(c);
        }
        assert(plain@ =~= blanked(query@).take(it.index() as int + 1));
    }
    assert(blanked(query@).take(query@.len() as int) =~= blanked(query@));
    join(&split_words(plain.as_str()), " ")
}

/// The keyword leg's rules.
#[derive(Debug, Clone, Copy)]
pub struct TantivyTextIndex;

impl TantivyTextIndex {
    /// The name of a user's own directory. No user's query opens another's.
    pub fn directory(&self, user: UserId) -> (name: String)
        ensures
            name@ == user.text(),
    {
        user.to_text()
    }

    /// What is indexed of a memory.
    pub fn document(&self, memory: &Memory) -> (document: TextDocument)
        ensures
            document@ == document_of(memory@),
            uuid_of_text(document.memory_id@) == Some(memory@.id.value),
    {
        TextDocument {
            memory_id: memory.id().to_text(),
            content: memory.content().to_owned(),
            tags: join(memory.tags(), " "),
            category: memory.category().as_str().to_owned(),
        }
    }

    /// Indexes a memory, in place of what was indexed of it before.
    pub fn upsert(&self, memory: &Memory) -> (steps: Vec<IndexStep>)
        ensures
            steps@.len() == 3,
            steps@[0] matches IndexStep::Delete(id) && id@ == memory@.id.text(),
            steps@[1] matches IndexStep::Add(document) && document@ == document_of(memory@),
            steps@[2] is Commit,
            forall|index: Seq<DocumentView>| #[trigger]
                after_steps(index, steps@, 3) == upserted(index, memory@),
            uuid_of_text(memory@.id.text()) == Some(memory@.id.value),
    {
        let mut steps: Vec<IndexStep> = Vec::new();
        steps.push(IndexStep::Delete(memory.id().to_text()));
        steps.push(IndexStep::Add(self.document(memory)));
        steps.push(IndexStep::Commit);
        proof {
            reveal_with_fuel(after_steps, 4);
        }
        steps
    }

    /// Takes a memory out of the index.
    pub fn remove(&self, id: MemoryId) -> (steps: Vec<IndexStep>)
        ensures
            steps@.len() == 2,
            steps@[0] matches IndexStep::Delete(text) && text@ == id.text(),
            steps@[1] is Commit,
            forall|index: Seq<DocumentView>| #[trigger]
                after_steps(index, steps@, 2) == removed(index, id),
    {
        let mut steps: Vec<IndexStep> = Vec::new();
        steps.push(IndexStep::Delete(id.to_text()));
        steps.push(IndexStep::Commit);
        proof {
            reveal_with_fuel(after_steps, 3);
        }
        steps
    }

    /// What is handed to the index; none, where nothing can be found.
    pub fn search(&self, query: &str, limit: usize) -> (search: Option<String>)
        ensures
            match search {
                Some(q) => limit > 0 && trimmed(query@).len() > 0 && q@ == escaped(query@),
                None => limit == 0 || trimmed(query@).len() == 0,
            },
    {
        if limit == 0 || trim(query).as_str().is_empty() {
            None
        } else {
            Some(escape_query(query))
        }
    }

    /// The memories of the documents found, best first. A document whose
    /// identifier does not read as one is passed over, and a query that the
    /// index cannot read finds nothing: it is a user typing punctuation.
    pub fn found(&self, reply: SearchReply) -> (ids: Vec<MemoryId>)
        ensures
            match reply {
                SearchReply::Unparsed => ids@.len() == 0,
                SearchReply::Hits(raws) => ids@ == ids_among(texts(raws@)) && ids@.len()
                    <= raws@.len(),
            },
    {
        match reply {
            SearchReply::Unparsed => Vec::new(),
            SearchReply::Hits(raws) => {
                proof {
                    answers_keep_to_the_limit(texts(raws@), raws@.len());
                }
                read_ids(&raws)
            },
        }
    }
}

fn read_ids(raws: &Vec<String>) -> (ids: Vec<MemoryId>)
    ensures
        ids@ == ids_among(texts(raws@)),
{
    let mut ids: Vec<MemoryId> = Vec::new();
    let ghost all = texts(raws@);
    let mut i: usize = 0;
    assert(all.take(0) =~= Seq::empty());
    while i < raws.len()
        invariant
            0 <= i <= raws@.len(),
            all == texts(raws@),
            ids@ == ids_among(all.take(i as int)),
        decreases raws@.len() - i,
    {
        proof {
            assert(all.take(i + 1).drop_last() =~= all.take(i as int));
            assert(all.take(i + 1).last() == raws@[i as int]@);
        }
        match MemoryId::parse(raws[i].as_str()) {
            Ok(id) => ids.push(id),
            Err(_) => {},
        }
        i += 1;
    }
    assert(all.take(all.len() as int) =~= all);
    ids
}

/// What was asked of a user's index.
pub enum IndexCall {
    Upsert(MemoryView),
    Remove(MemoryId),
}

impl IndexCall {
    pub open spec fn id(self) -> MemoryId {
        match self {
            IndexCall::Upsert(memory) => memory.id,
            IndexCall::Remove(id) => id,
        }
    }
}

/// The index that these calls leave, from an empty one.
pub open spec fn index_after(calls: Seq<IndexCall>) -> Seq<DocumentView>
    decreases calls.len(),
{
    if calls.len() == 0 {
        Seq::empty()
    } else {
        let before = index_after(calls.drop_last());
        match calls.last() {
            IndexCall::Upsert(memory) => upserted(before, memory),
            IndexCall::Remove(id) => removed(before, id),
        }
    }
}

/// No two documents have one identifier.
pub open spec fn one_each(index: Seq<DocumentView>) -> bool {
    forall|i: int, j: int|
        0 <= i < j < index.len() ==> (#[trigger] index[i]).memory_id != (
        #[trigger] index[j]).memory_id
}

proof fn lemma_without(index: Seq<DocumentView>, memory_id: Seq<char>, document: DocumentView)
    ensures
        without(index, memory_id).contains(document) <==> index.contains(document)
            && document.memory_id != memory_id,
    decreases index.len(),
{
    if index.len() > 0 {
        let shorter = index.drop_last();
        let kept = without(index, memory_id);
        lemma_without(shorter, memory_id, document);
        assert(index[index.len() - 1] == index.last());
        if index.contains(document) {
            let i = choose|i: int| 0 <= i < index.len() && index[i] == document;
            if i < shorter.len() {
                assert(shorter[i] == document);
            }
        }
        if shorter.contains(document) {
            let i = choose|i: int| 0 <= i < shorter.len() && shorter[i] == document;
            assert(index[i] == document);
        }
        if index.last().memory_id != memory_id {
            let before = without(shorter, memory_id);
            assert(kept[before.len() as int] == index.last());
            if before.contains(document) {
                let i = choose|i: int| 0 <= i < before.len() && before[i] == document;
                assert(kept[i] == document);
            }
            if kept.contains(document) {
                let i = choose|i: int| 0 <= i < kept.len() && kept[i] == document;
                if i < before.len() {
                    assert(before[i] == document);
                }
            }
        }
    }
}

proof fn lemma_without_one_each(index: Seq<DocumentView>, memory_id: Seq<char>)
    requires
        one_each(index),
    ensures
        one_each(without(index, memory_id)),
    decreases index.len(),
{
    if index.len() > 0 {
        let shorter = index.drop_last();
        assert forall|i: int, j: int| 0 <= i < j < shorter.len() implies (
        #[trigger] shorter[i]).memory_id != (#[trigger] shorter[j]).memory_id by {
            assert(shorter[i] == index[i] && shorter[j] == index[j]);
        }
        lemma_without_one_each(shorter, memory_id);
        let before = without(shorter, memory_id);
        assert forall|i: int| 0 <= i < before.len() implies (#[trigger] before[i]).memory_id
            != index.last().memory_id by {
            assert(before.contains(before[i]));
            lemma_without(shorter, memory_id, before[i]);
            let k = choose|k: int| 0 <= k < shorter.len() && shorter[k] == before[i];
            assert(index[k].memory_id != index[index.len() - 1].memory_id);
        }
    }
}

/// Indexing a memory, however often, leaves exactly one document of it, the
/// one that was indexed last. The documents of the other memories stay.
pub proof fn an_upsert_leaves_one_document(
    index: Seq<DocumentView>,
    memory: MemoryView,
    document: DocumentView,
)
    requires
        one_each(index),
    ensures
        one_each(upserted(index, memory)),
        upserted(index, memory).contains(document) <==> document == document_of(memory) || (
        document.memory_id != memory.id.text() && index.contains(document)),
{
    let kept = without(index, memory.id.text());
    let after = upserted(index, memory);
    lemma_without_one_each(index, memory.id.text());
    lemma_without(index, memory.id.text(), document);
    assert forall|i: int| 0 <= i < kept.len() implies (#[trigger] kept[i]).memory_id
        != memory.id.text() by {
        assert(kept.contains(kept[i]));
        lemma_without(index, memory.id.text(), kept[i]);
    }
    assert(after[kept.len() as int] == document_of(memory));
    if kept.contains(document) {
        let i = choose|i: int| 0 <= i < kept.len() && kept[i] == document;
        assert(after[i] == document);
    }
    if after.contains(document) {
        let i = choose|i: int| 0 <= i < after.len() && after[i] == document;
        if i < kept.len() {
            assert(kept[i] == document);
        }
    }
}

/// Removing a memory leaves no document of it, and those of the others.
pub proof fn a_removal_leaves_no_document(
    index: Seq<DocumentView>,
    id: MemoryId,
    document: DocumentView,
)
    requires
        one_each(index),
    ensures
        one_each(removed(index, id)),
        removed(index, id).contains(document) <==> index.contains(document)
            && document.memory_id != id.text(),
{
    lemma_without_one_each(index, id.text());
    lemma_without(index, id.text(), document);
}

/// Whatever was asked of an index, it holds each memory at most once, and what
/// it holds of one is what was indexed last, with no removal since.
pub proof fn an_index_is_what_its_calls_left(calls: Seq<IndexCall>, document: DocumentView)
    ensures
        one_each(index_after(calls)),
        index_after(calls).contains(document) ==> exists|i: int|
            0 <= i < calls.len() && is_last_upsert(calls, #[trigger] calls[i], i, document),
    decreases calls.len(),
{
    if calls.len() > 0 {
        let earlier = calls.drop_last();
        let before = index_after(earlier);
        an_index_is_what_its_calls_left(earlier, document);
        let last = calls.len() - 1;
        match calls.last() {
            IndexCall::Upsert(memory) => {
                an_upsert_leaves_one_document(before, memory, document);
                if document == document_of(memory) {
                    assert(is_last_upsert(calls, calls[last], last, document));
                }
            },
            IndexCall::Remove(id) => {
                a_removal_leaves_no_document(before, id, document);
            },
        }
        if before.contains(document) && document.memory_id != calls.last().id().text() {
            let i = choose|i: int|
                0 <= i < earlier.len() && is_last_upsert(earlier, #[trigger] earlier[i], i, document);
            assert(calls[i] == earlier[i]);
            assert forall|j: int| i < j < calls.len() implies (#[trigger] calls[j]).id()
                != calls[i].id() by {
                if j < last {
                    assert(earlier[j] == calls[j]);
                }
            }
            assert(is_last_upsert(calls, calls[i], i, document));
        }
    }
}

/// The call at `i` indexed the document, and no later one is on its memory.
pub open spec fn is_last_upsert(
    calls: Seq<IndexCall>,
    call: IndexCall,
    i: int,
    document: DocumentView,
) -> bool {
    &&& call matches IndexCall::Upsert(memory) && document == document_of(memory)
    &&& forall|j: int| i < j < calls.len() ==> (#[trigger] calls[j]).id() != call.id()
}

/// Hits within the asked limit give an answer within it.
pub proof fn answers_keep_to_the_limit(raws: Seq<Seq<char>>, limit: nat)
    requires
        raws.len() <= limit,
    ensures
        ids_among(raws).len() <= limit,
    decreases raws.len(),
{
    if raws.len() > 0 {
        answers_keep_to_the_limit(raws.drop_last(), (limit - 1) as nat);
    }
}

/// A search answers no memory twice: where the documents found are distinct
/// ones of an index that holds each memory once under an identifier that reads
/// back, the answer is their memories, one for each, in order.
pub proof fn answers_do_not_repeat(
    index: Seq<DocumentView>,
    places: Seq<int>,
    ids: Seq<MemoryId>,
)
    requires
        one_each(index),
        places.no_duplicates(),
        places.len() == ids.len(),
        forall|k: int|
            0 <= k < places.len() ==> 0 <= #[trigger] places[k] < index.len()
                && index[places[k]].memory_id == ids[k].text() && uuid_of_text(ids[k].text())
                == Some(ids[k].value),
    ensures
        ids_among(places.map_values(|p: int| index[p].memory_id)) == ids,
        ids.no_duplicates(),
    decreases places.len(),
{
    let raws = places.map_values(|p: int| index[p].memory_id);
    assert forall|a: int, b: int| 0 <= a < b < ids.len() implies ids[a] != ids[b] by {
        let (x, y) = (places[a], places[b]);
        assert(x != y);
        if x < y {
            assert(index[x].memory_id != index[y].memory_id);
        } else {
            assert(index[y].memory_id != index[x].memory_id);
        }
    }
    if places.len() == 0 {
        assert(ids =~= Seq::empty());
    } else {
        let fewer = places.drop_last();
        let shorter = ids.drop_last();
        assert forall|k: int| 0 <= k < fewer.len() implies 0 <= #[trigger] fewer[k] < index.len()
            && index[fewer[k]].memory_id == shorter[k].text() && uuid_of_text(shorter[k].text())
            == Some(shorter[k].value) by {
            assert(fewer[k] == places[k] && shorter[k] == ids[k]);
        }
        answers_do_not_repeat(index, fewer, shorter);
        assert(raws.drop_last() =~= fewer.map_values(|p: int| index[p].memory_id));
        let last = places.len() - 1;
        assert(places[last] == places.last());
        assert(raws.last() == ids[last].text());
        assert(shorter.push(ids[last]) =~= ids);
    }
}

/// No query syntax reaches the index.
pub proof fn escaping_removes_syntax(query: Seq<char>, i: int)
    requires
        0 <= i < escaped(query).len(),
    ensures
        !is_query_syntax(escaped(query)[i]),
{
    let plain = |c: char| !is_query_syntax(c);
    assert forall|j: int| 0 <= j < blanked(query).len() implies plain(
        #[trigger] blanked(query)[j],
    ) by {}
    words_keep_chars(blanked(query), plain);
    reveal_strlit(" ");
    assert(all_chars(" "@, plain));
    joining_keeps_chars(words(blanked(query)), " "@, plain);
    assert(plain(escaped(query)[i]));
}

/// Escaping leaves an escaped query alone.
pub proof fn escaping_is_idempotent(query: Seq<char>)
    ensures
        escaped(escaped(query)) == escaped(query),
{
    let once = escaped(query);
    assert forall|i: int| 0 <= i < once.len() implies blanked(once)[i] == once[i] by {
        escaping_removes_syntax(query, i);
    }
    assert(blanked(once) =~= once);
    words_are_solid(blanked(query));
    reveal_strlit(" ");
    assert(" "@ =~= seq![' ']);
    splitting_undoes_joining(words(blanked(query)));
}

/// A memory is indexed with all that it says, its tags and its category, under
/// its identifier.
pub proof fn documents_hold_what_a_memory_says(memory: MemoryView)
    ensures
        document_of(memory).memory_id == memory.id.text(),
        document_of(memory).content == memory.content,
        document_of(memory).tags == joined(memory.tags, seq![' ']),
        document_of(memory).category == memory.category.name(),
{
    reveal_strlit(" ");
    assert(" "@ =~= seq![' ']);
}

/// Escaping touches the characters that have a meaning and no others: the words
/// of a query reach the index as they are.
pub proof fn escaping_keeps_the_words(query: Seq<char>)
    ensures
        words(escaped(query)) == words(blanked(query)),
        blanked(query).len() == query.len(),
        forall|i: int|
            0 <= i < query.len() ==> #[trigger] blanked(query)[i] == (if is_query_syntax(query[i]) {
                ' '
            } else {
                query[i]
            }),
{
    words_are_solid(blanked(query));
    reveal_strlit(" ");
    assert(" "@ =~= seq![' ']);
    splitting_undoes_joining(words(blanked(query)));
}

/// The characters that have a meaning are these.
pub proof fn syntax_is_these_characters(c: char)
    ensures
        is_query_syntax(c) <==> "+-!(){}[]^\"~*?:\\/"@.contains(c),
{
    reveal_strlit("+-!(){}[]^\"~*?:\\/");
    let all = "+-!(){}[]^\"~*?:\\/"@;
    assert(all.len() == 17);
    assert(all[0] == '+' && all[1] == '-' && all[2] == '!' && all[3] == '(' && all[4] == ')');
    assert(all[5] == '{' && all[6] == '}' && all[7] == '[' && all[8] == ']' && all[9] == '^');
    assert(all[10] == '"' && all[11] == '~' && all[12] == '*' && all[13] == '?');
    assert(all[14] == ':' && all[15] == '\\' && all[16] == '/');
}

/// What a search answers are the hits that are identifiers, in their order.
pub proof fn hits_are_answered_in_order(raws: Seq<Seq<char>>)
    ensures
        ids_among(raws) == raws.filter(|raw: Seq<char>| uuid_of_text(raw) is Some).map_values(
            |raw: Seq<char>| MemoryId { value: uuid_of_text(raw)->0 },
        ),
    decreases raws.len(),
{
    reveal(Seq::filter);
    let p = |raw: Seq<char>| uuid_of_text(raw) is Some;
    let f = |raw: Seq<char>| MemoryId { value: uuid_of_text(raw)->0 };
    if raws.len() > 0 {
        hits_are_answered_in_order(raws.drop_last());
        if p(raws.last()) {
            let earlier = raws.drop_last().filter(p);
            assert(raws.filter(p).map_values(f) =~= earlier.map_values(f).push(f(raws.last())));
        }
    }
    assert(ids_among(raws) =~= raws.filter(p).map_values(f));
}

/// A document is deleted by its identifier: those of others stay, in order.
pub proof fn deleting_spares_the_others(index: Seq<DocumentView>, memory_id: Seq<char>)
    ensures
        without(index, memory_id) == index.filter(|d: DocumentView| d.memory_id != memory_id),
    decreases index.len(),
{
    reveal(Seq::filter);
    if index.len() > 0 {
        deleting_spares_the_others(index.drop_last(), memory_id);
    }
}

} // verus!
