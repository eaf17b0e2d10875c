//! The canonical form of an entity's name: the graph's node identity.
//!
//! A hop is only as good as the join it hops over. If a writer files an edge
//! under `Fly.io` and a reader seeds a hop from `fly.io`, the two never meet.
//! So both sides pass every name through this one function.
//!
//! It collapses differences of spelling (case, surrounding and repeated white
//! space, trailing punctuation, a possessive) and never names that differ in
//! their letters.
use crate::text::{
    all_ascii, all_chars, ascii_lower_char, chars_of, drop_end_while, is_white_space, join, joined,
    joining_keeps_chars, lemma_drop_end_while, lemma_drop_end_while_fixed, lemma_words_push,
    lemma_words_push_space, lowercase, lowercased, same_text, solid, split_words,
    splitting_undoes_joining, text_of_range, white_space, words, words_are_solid,
    words_keep_chars,
};
use vstd::prelude::*;

verus! {

/// A canonicalised entity name: two names of one graph node give equal keys. A
/// key is made of a name, or read back from the row that it was filed under.
#[derive(Debug, Clone, PartialEq, Eq, Hash)]
pub struct EntityKey(String);

impl View for EntityKey {
    type V = Seq<char>;

    closed spec fn view(&self) -> Seq<char> {
        self.0@
    }
}

/// The punctuation that may end a sentence, or a quotation, after a name.
pub open spec fn ends_sentence() -> spec_fn(char) -> bool {
    |c: char|
        c == '.' || c == ',' || c == ';' || c == ':' || c == '!' || c == '?' || c == '\'' || c
            == '\u{2019}'
}

/// Whether a name ends in a possessive.
pub open spec fn is_possessive(s: Seq<char>) -> bool {
    s.len() >= 2 && s.last() == 's' && (s[s.len() - 2] == '\'' || s[s.len() - 2] == '\u{2019}')
}

/// What may stand behind a name without being a part of it: a mark, or white
/// space.
pub open spec fn is_loose() -> spec_fn(char) -> bool {
    |c: char| ends_sentence()(c) || is_white_space(c)
}

pub open spec fn ends_loosely(s: Seq<char>) -> bool {
    s.len() > 0 && is_loose()(s.last())
}

/// A text without the marks and the white space behind it. They have no case,
/// so a name's lower case is the same without them.
pub open spec fn unmarked(s: Seq<char>) -> Seq<char> {
    drop_end_while(s, is_loose())
}

/// A name without the marks, the white space and the possessives at its end,
/// in whatever order they stand there.
pub open spec fn bare(s: Seq<char>) -> Seq<char>
    decreases s.len(),
{
    if ends_loosely(s) {
        bare(s.drop_last())
    } else if is_possessive(s) {
        bare(s.take(s.len() - 2))
    } else {
        s
    }
}

/// Lower case, with single spaces between words.
pub open spec fn collapsed(raw: Seq<char>) -> Seq<char> {
    joined(words(lowercased(raw)), seq![' '])
}

/// A name in lower case, with single spaces between words, without what is no
/// part of it at its end.
pub open spec fn plain(raw: Seq<char>) -> Seq<char> {
    bare(collapsed(unmarked(raw)))
}

/// The canonical form of a name: its plain form, which is its own lower case.
/// A name beyond ASCII for which it were not would come to nothing; Unicode has
/// none.
pub open spec fn canonical(raw: Seq<char>) -> Seq<char> {
    if all_ascii(raw) || lowercased(plain(raw)) == plain(raw) {
        plain(raw)
    } else {
        Seq::empty()
    }
}

/// A text without the marks and the white space behind it.
fn unmark(text: &str) -> (name: String)
    ensures
        name@ == unmarked(text@),
{
    let chars = chars_of(text);
    let mut to: usize = chars.len();
    while to > 0 && (sentence_end(chars[to - 1]) || white_space(chars[to - 1]))
        invariant
            0 <= to <= chars@.len(),
            forall|i: int| to <= i < chars@.len() ==> is_loose()(#[trigger] chars@[i]),
        decreases to,
    {
        to -= 1;
    }
    proof {
        lemma_drop_end_while(chars@, is_loose(), to as int);
    }
    text_of_range(&chars, 0, to)
}

fn sentence_end(c: char) -> (is: bool)
    ensures
        is == ends_sentence()(c),
{
    c == '.' || c == ',' || c == ';' || c == ':' || c == '!' || c == '?' || c == '\'' || c
        == '\u{2019}'
}

/// A name without the marks, the white space and the possessives at its end.
fn strip(text: &str) -> (name: String)
    ensures
        name@ == bare(text@),
{
    let chars = chars_of(text);
    let ghost whole = chars@;
    let mut to: usize = chars.len();
    let mut settled = false;
    assert(whole.take(to as int) =~= whole);
    while !settled
        invariant
            chars@ == whole,
            0 <= to <= whole.len(),
            bare(whole.take(to as int)) == bare(whole),
            settled ==> bare(whole) == whole.take(to as int),
        decreases to, (if settled {
            0int
        } else {
            1int
        }),
    {
        let ghost part = whole.take(to as int);
        if to > 0 && (sentence_end(chars[to - 1]) || white_space(chars[to - 1])) {
            assert(part.drop_last() =~= whole.take(to - 1));
            to -= 1;
        } else if to > 1 && chars[to - 1] == 's' && (chars[to - 2] == '\'' || chars[to - 2]
            == '\u{2019}') {
            assert(part.take(to - 2) =~= whole.take(to - 2));
            to -= 2;
        } else {
            settled = true;
        }
    }
    assert(whole.subrange(0, to as int) =~= whole.take(to as int));
    text_of_range(&chars, 0, to)
}

/// Canonicalises a raw entity name.
pub fn canonicalize(raw: &str) -> (name: String)
    ensures
        name@ == canonical(raw@),
{
    let lowered = lowercase(unmark(raw).as_str());
    let list = split_words(lowered.as_str());
    proof {
        reveal_strlit(" ");
        assert(" "@ =~= seq![' ']);
        if all_ascii(raw@) {
            lemma_ascii_plain(raw@);
        }
    }
    let name = strip(join(&list, " ").as_str());
    if same_text(lowercase(name.as_str()).as_str(), name.as_str()) {
        name
    } else {
        String::new()
    }
}

impl EntityKey {
    /// Canonicalises a raw entity name.
    pub fn new(raw: &str) -> (key: EntityKey)
        ensures
            key@ == canonical(raw@),
    {
        EntityKey(canonicalize(raw))
    }

    /// A key as a row holds it: it was canonicalised when it was filed.
    pub fn from_stored(stored: String) -> (key: EntityKey)
        ensures
            key@ == stored@,
    {
        EntityKey(stored)
    }

    pub fn as_str(&self) -> (name: &str)
        ensures
            name@ == self@,
    {
        self.0.as_str()
    }

    /// A name that canonicalises to nothing is not a usable node.
    pub fn is_empty(&self) -> (empty: bool)
        ensures
            empty == (self@.len() == 0),
    {
        self.0.as_str().is_empty()
    }

    /// Whether two keys are one node.
    pub fn same(&self, other: &EntityKey) -> (same: bool)
        ensures
            same == (self@ == other@),
    {
        self.0 == other.0
    }

    pub fn copy(&self) -> (copy: EntityKey)
        ensures
            copy@ == self@,
    {
        EntityKey(self.0.clone())
    }
}

/// The keys of a list.
pub open spec fn key_views(keys: Seq<EntityKey>) -> Seq<Seq<char>> {
    keys.map_values(|k: EntityKey| k@)
}

/// The distinct keys of a list that are not empty, in order of first
/// occurrence.
pub open spec fn distinct_keys(keys: Seq<Seq<char>>) -> Seq<Seq<char>>
    decreases keys.len(),
{
    if keys.len() == 0 {
        Seq::empty()
    } else {
        let earlier = distinct_keys(keys.drop_last());
        if keys.last().len() == 0 || earlier.contains(keys.last()) {
            earlier
        } else {
            earlier.push(keys.last())
        }
    }
}

pub fn holds_key(keys: &Vec<EntityKey>, key: &EntityKey) -> (held: bool)
    ensures
        held == key_views(keys@).contains(key@),
{
    let mut i: usize = 0;
    while i < keys.len()
        invariant
            0 <= i <= keys@.len(),
            forall|j: int| 0 <= j < i ==> #[trigger] key_views(keys@)[j] != key@,
        decreases keys@.len() - i,
    {
        assert(key_views(keys@)[i as int] == keys@[i as int]@);
        if keys[i].same(key) {
            return true;
        }
        i += 1;
    }
    false
}

/// The distinct keys of a list that are not empty.
pub fn distinct(candidates: &Vec<EntityKey>) -> (keys: Vec<EntityKey>)
    ensures
        key_views(keys@) == distinct_keys(key_views(candidates@)),
{
    let mut keys: Vec<EntityKey> = Vec::new();
    let mut i: usize = 0;
    assert(key_views(candidates@).take(0) =~= Seq::empty());
    assert(key_views(keys@) =~= Seq::empty());
    while i < candidates.len()
        invariant
            0 <= i <= candidates@.len(),
            key_views(keys@) == distinct_keys(key_views(candidates@).take(i as int)),
        decreases candidates@.len() - i,
    {
        proof {
            let grown = key_views(candidates@).take(i + 1);
            assert(grown.drop_last() =~= key_views(candidates@).take(i as int));
            assert(grown.last() == candidates@[i as int]@);
        }
        if !candidates[i].is_empty() && !holds_key(&keys, &candidates[i]) {
            let ghost before = keys@;
            let key = candidates[i].copy();
            let ghost added = key@;
            keys.push(key);
            assert(key_views(keys@) =~= key_views(before).push(added));
        }
        i += 1;
    }
    assert(key_views(candidates@).take(candidates@.len() as int) =~= key_views(candidates@));
    keys
}

/// Nothing but repetitions and the empty key is left out.
pub proof fn distinct_keys_hold_the_same(keys: Seq<Seq<char>>, key: Seq<char>)
    ensures
        distinct_keys(keys).contains(key) <==> key.len() > 0 && keys.contains(key),
    decreases keys.len(),
{
    if keys.len() > 0 {
        let shorter = keys.drop_last();
        let earlier = distinct_keys(shorter);
        distinct_keys_hold_the_same(shorter, key);
        assert(keys[keys.len() - 1] == keys.last());
        if keys.contains(key) {
            let i = choose|i: int| 0 <= i < keys.len() && keys[i] == key;
            if i < keys.len() - 1 {
                assert(shorter[i] == key);
            }
        }
        if shorter.contains(key) {
            let i = choose|i: int| 0 <= i < shorter.len() && shorter[i] == key;
            assert(keys[i] == key);
        }
        if keys.last().len() > 0 && !earlier.contains(keys.last()) {
            let grown = earlier.push(keys.last());
            assert(grown[earlier.len() as int] == keys.last());
            if earlier.contains(key) {
                let i = choose|i: int| 0 <= i < earlier.len() && earlier[i] == key;
                assert(grown[i] == key);
            }
            if grown.contains(key) {
                let i = choose|i: int| 0 <= i < grown.len() && grown[i] == key;
                if i < earlier.len() {
                    assert(earlier[i] == key);
                }
            }
        } else if keys.last().len() > 0 {
            distinct_keys_hold_the_same(shorter, keys.last());
        }
    }
}

/// Whether a list has a key at a place before which it does not have another.
pub open spec fn comes_up_first(keys: Seq<Seq<char>>, key: Seq<char>, other: Seq<char>) -> bool {
    exists|i: int|
        0 <= i < keys.len() && #[trigger] keys[i] == key && !keys.take(i).contains(other)
}

/// No key is kept twice, and those that are stand in the order in which the
/// list first has them.
pub proof fn distinct_keys_are_distinct(keys: Seq<Seq<char>>)
    ensures
        distinct_keys(keys).no_duplicates(),
        forall|p: int, q: int|
            0 <= p < q < distinct_keys(keys).len() ==> comes_up_first(
                keys,
                #[trigger] distinct_keys(keys)[p],
                #[trigger] distinct_keys(keys)[q],
            ),
    decreases keys.len(),
{
    if keys.len() > 0 {
        let shorter = keys.drop_last();
        let earlier = distinct_keys(shorter);
        let kept = distinct_keys(keys);
        distinct_keys_are_distinct(shorter);
        assert forall|i: int, j: int| 0 <= i < j < kept.len() implies kept[i] != kept[j] by {
            if j == earlier.len() {
                assert(earlier.contains(earlier[i]));
            }
        }
        assert forall|p: int, q: int| 0 <= p < q < kept.len() implies comes_up_first(
            keys,
            #[trigger] kept[p],
            #[trigger] kept[q],
        ) by {
            if q < earlier.len() {
                assert(earlier[p] == kept[p] && earlier[q] == kept[q]);
                assert(comes_up_first(shorter, earlier[p], earlier[q]));
                let i = choose|i: int|
                    0 <= i < shorter.len() && #[trigger] shorter[i] == earlier[p] && !shorter.take(
                        i,
                    ).contains(earlier[q]);
                assert(keys[i] == kept[p]);
                assert(keys.take(i) =~= shorter.take(i));
            } else {
                distinct_keys_hold_the_same(shorter, earlier[p]);
                distinct_keys_hold_the_same(shorter, kept[q]);
                assert(earlier.contains(earlier[p]));
                let i = choose|i: int| 0 <= i < shorter.len() && shorter[i] == earlier[p];
                assert(keys[i] == kept[p]);
                if keys.take(i).contains(kept[q]) {
                    let k = choose|k: int| 0 <= k < i && keys.take(i)[k] == kept[q];
                    assert(shorter[k] == kept[q]);
                }
            }
        }
    }
}

/// What is left of a name is a beginning of it, at whose end there is nothing
/// left to strip.
proof fn lemma_bare(s: Seq<char>)
    ensures
        bare(s).len() <= s.len(),
        bare(s) == s.take(bare(s).len() as int),
        !ends_loosely(bare(s)),
        !is_possessive(bare(s)),
        bare(bare(s)) == bare(s),
    decreases s.len(),
{
    if ends_loosely(s) {
        lemma_bare(s.drop_last());
        assert(s.drop_last().take(bare(s).len() as int) =~= s.take(bare(s).len() as int));
    } else if is_possessive(s) {
        let shorter = s.take(s.len() - 2);
        lemma_bare(shorter);
        assert(shorter.take(bare(s).len() as int) =~= s.take(bare(s).len() as int));
    } else {
        assert(s.take(s.len() as int) =~= s);
    }
}

/// An ASCII name in its plain form is its own lower case.
proof fn lemma_ascii_plain(raw: Seq<char>)
    requires
        all_ascii(raw),
    ensures
        lowercased(plain(raw)) == plain(raw),
{
    let small = |c: char| (c as u32) < 128 && ascii_lower_char(c) == c;
    let name = unmarked(raw);
    lemma_drop_end_while_fixed(raw, is_loose());
    assert forall|i: int| 0 <= i < name.len() implies (#[trigger] name[i] as u32) < 128 by {
        assert(name[i] == raw[i]);
    }
    let lowered = lowercased(name);
    assert forall|i: int| 0 <= i < lowered.len() implies small(#[trigger] lowered[i]) by {
        assert(lowered[i] == ascii_lower_char(name[i]));
    }
    words_keep_chars(lowered, small);
    assert(all_chars(seq![' '], small));
    joining_keeps_chars(words(lowered), seq![' '], small);
    lemma_bare(collapsed(name));
    let key = plain(raw);
    assert forall|i: int| 0 <= i < key.len() implies small(#[trigger] key[i]) by {
        assert(key[i] == collapsed(name)[i]);
        assert(small(collapsed(name)[i]));
    }
    assert(all_ascii(key));
    assert(lowercased(key) =~= key);
}

/// A plain form ends in the name, its words one space apart.
proof fn lemma_plain(raw: Seq<char>)
    ensures
        !ends_loosely(plain(raw)),
        !is_possessive(plain(raw)),
        bare(plain(raw)) == plain(raw),
        joined(words(plain(raw)), seq![' ']) == plain(raw),
{
    let list = words(lowercased(unmarked(raw)));
    lemma_bare(collapsed(unmarked(raw)));
    words_are_solid(lowercased(unmarked(raw)));
    lemma_prefix_is_collapsed(list, plain(raw).len() as int);
}

/// A key ends in the name: not in a mark, white space or a possessive. Its
/// words stand one space apart, and none before the first. It is its own lower
/// case.
pub proof fn keys_are_plain(raw: Seq<char>)
    ensures
        !ends_loosely(canonical(raw)),
        !is_possessive(canonical(raw)),
        joined(words(canonical(raw)), seq![' ']) == canonical(raw),
        lowercased(canonical(raw)) == canonical(raw),
{
    lemma_plain(raw);
    if all_ascii(raw) {
        lemma_ascii_plain(raw);
    }
    let nothing = Seq::<char>::empty();
    assert(words(nothing) =~= Seq::empty());
    assert(joined(words(nothing), seq![' ']) =~= nothing);
    assert(lowercased(nothing) =~= nothing);
}

/// Canonicalising a key gives the key.
pub proof fn canonicalising_a_key_keeps_it(raw: Seq<char>)
    ensures
        canonical(canonical(raw)) == canonical(raw),
{
    keys_are_plain(raw);
    let key = canonical(raw);
    assert(bare(key) == key);
    assert(unmarked(key) == key);
    assert(collapsed(key) == key);
    assert(plain(key) == key);
}

/// The key of a name, ASCII or not, goes by its plain form alone.
proof fn lemma_key_of_plain(a: Seq<char>, b: Seq<char>)
    requires
        plain(a) == plain(b),
    ensures
        canonical(a) == canonical(b),
{
    if all_ascii(a) {
        lemma_ascii_plain(a);
    }
    if all_ascii(b) {
        lemma_ascii_plain(b);
    }
}

/// Names that agree in the words of their lower case, whatever marks stand
/// behind them, are one node: case and white space never tell two nodes apart.
pub proof fn case_and_spacing_do_not_matter(a: Seq<char>, b: Seq<char>)
    requires
        words(lowercased(unmarked(a))) == words(lowercased(unmarked(b))),
    ensures
        canonical(a) == canonical(b),
{
    lemma_key_of_plain(a, b);
}

/// A mark behind a name, or white space, leaves its key as it is.
pub proof fn a_trailing_mark_does_not_matter(name: Seq<char>, mark: char)
    requires
        is_loose()(mark),
    ensures
        canonical(name.push(mark)) == canonical(name),
{
    assert(name.push(mark).drop_last() =~= name);
    lemma_key_of_plain(name.push(mark), name);
}

/// A mark or white space at the end is stripped.
proof fn lemma_bare_behind(s: Seq<char>, c: char)
    requires
        is_loose()(c),
    ensures
        bare(s.push(c)) == bare(s),
{
    assert(s.push(c).drop_last() =~= s);
}

/// One more character that is not white space joins the last word or begins
/// the next.
proof fn lemma_one_more(s: Seq<char>, c: char)
    requires
        !is_white_space(c),
    ensures
        ({
            let before = joined(words(s), seq![' ']);
            let after = joined(words(s.push(c)), seq![' ']);
            after == before.push(c) || after == before.push(' ').push(c)
        }),
        s.len() > 0 && !is_white_space(s.last()) ==> joined(words(s.push(c)), seq![' ']) == joined(
            words(s),
            seq![' '],
        ).push(c),
{
    let list = words(s);
    let grown = words(s.push(c));
    lemma_words_push(s, Seq::empty(), c);
    let before = joined(list, seq![' ']);
    if s.len() > 0 && !is_white_space(s.last()) {
        let longer = list.last().push(c);
        assert(grown == list.drop_last().push(longer));
        assert(grown.drop_last() =~= list.drop_last());
        if list.len() == 1 {
            assert(grown[0] == longer);
            assert(list[0] == list.last());
        }
        assert(joined(grown, seq![' ']) =~= before.push(c));
    } else {
        assert(grown.drop_last() =~= list);
        if list.len() == 0 {
            assert(list =~= Seq::empty());
            assert(joined(grown, seq![' ']) =~= before.push(c));
        } else {
            assert(joined(grown, seq![' ']) =~= before.push(' ').push(c));
        }
    }
}

/// Marks and white space behind a text are stripped from its words, too.
proof fn lemma_bare_words_behind(s: Seq<char>, tail: Seq<char>)
    requires
        forall|i: int| 0 <= i < tail.len() ==> is_loose()(#[trigger] tail[i]),
    ensures
        bare(joined(words(s + tail), seq![' '])) == bare(joined(words(s), seq![' '])),
    decreases tail.len(),
{
    if tail.len() == 0 {
        assert(s + tail =~= s);
    } else {
        let front = s + tail.drop_last();
        let c = tail.last();
        assert(is_loose()(tail[tail.len() - 1]));
        assert(s + tail =~= front.push(c));
        assert forall|i: int| 0 <= i < tail.drop_last().len() implies is_loose()(
            #[trigger] tail.drop_last()[i],
        ) by {
            assert(tail.drop_last()[i] == tail[i]);
        }
        lemma_bare_words_behind(s, tail.drop_last());
        let whole = joined(words(front), seq![' ']);
        if is_white_space(c) {
            lemma_words_push_space(front, Seq::empty(), c);
        } else {
            lemma_one_more(front, c);
            lemma_bare_behind(whole, c);
            lemma_bare_behind(whole.push(' '), c);
            lemma_bare_behind(whole, ' ');
        }
    }
}

/// A possessive behind a name leaves its key as it is, wherever lower case
/// treats the name as if nothing stood behind it, as it does in ASCII. (A capital
/// sigma has another lower case where it ends a word.)
pub proof fn a_possessive_does_not_matter(name: Seq<char>, apostrophe: char)
    requires
        apostrophe == '\'' || apostrophe == '\u{2019}',
        all_ascii(name.push(apostrophe)) || lowercased(name.push(apostrophe).push('s'))
            == lowercased(unmarked(name)) + name.skip(unmarked(name).len() as int).push(
            apostrophe,
        ).push('s'),
    ensures
        canonical(name.push(apostrophe).push('s')) == canonical(name),
{
    let kept = unmarked(name);
    let tail = name.skip(kept.len() as int);
    let owner = name.push(apostrophe).push('s');
    lemma_drop_end_while_fixed(name, is_loose());
    lemma_tail_is_loose(name);
    assert(kept + tail =~= name);
    if all_ascii(name.push(apostrophe)) {
        lemma_ascii_possessive(name, apostrophe);
    }
    let lowered = lowercased(kept) + tail;
    assert(lowercased(owner) =~= lowered.push(apostrophe).push('s'));
    assert(unmarked(owner) == owner);
    lemma_bare_words_behind(lowercased(kept), tail);
    lemma_one_more(lowered, apostrophe);
    lemma_one_more(lowered.push(apostrophe), 's');
    let whole = joined(words(lowered), seq![' ']);
    let marked = joined(words(lowered.push(apostrophe)), seq![' ']);
    let owned = marked.push('s');
    assert(collapsed(owner) == owned);
    assert(owned.take(owned.len() - 2) =~= marked.drop_last());
    assert(whole.push(apostrophe).drop_last() =~= whole);
    assert(whole.push(' ').push(apostrophe).drop_last() =~= whole.push(' '));
    lemma_bare_behind(whole, ' ');
    assert(is_possessive(owned));
    assert(bare(owned) == bare(whole));
    lemma_key_of_plain(owner, name);
}

/// What stands behind a name is marks and white space.
proof fn lemma_tail_is_loose(s: Seq<char>)
    ensures
        ({
            let tail = s.skip(unmarked(s).len() as int);
            forall|i: int| 0 <= i < tail.len() ==> is_loose()(#[trigger] tail[i])
        }),
    decreases s.len(),
{
    lemma_drop_end_while_fixed(s, is_loose());
    if ends_loosely(s) {
        let shorter = s.drop_last();
        lemma_tail_is_loose(shorter);
        let kept = unmarked(s).len() as int;
        assert(unmarked(s) == unmarked(shorter));
        assert forall|i: int| 0 <= i < s.skip(kept).len() implies is_loose()(
            #[trigger] s.skip(kept)[i],
        ) by {
            assert(s.skip(kept)[i] == s[kept + i]);
            if kept + i < shorter.len() {
                assert(is_loose()(shorter.skip(kept)[i]));
            } else {
                assert(s[kept + i] == s.last());
            }
        }
    }
}

/// In ASCII, lower case goes character by character, and a possessive is in
/// lower case.
proof fn lemma_ascii_possessive(name: Seq<char>, apostrophe: char)
    requires
        apostrophe == '\'' || apostrophe == '\u{2019}',
        all_ascii(name.push(apostrophe)),
    ensures
        lowercased(name.push(apostrophe).push('s')) == lowercased(unmarked(name)) + name.skip(
            unmarked(name).len() as int,
        ).push(apostrophe).push('s'),
{
    let kept = unmarked(name);
    let n = kept.len() as int;
    let owner = name.push(apostrophe).push('s');
    lemma_drop_end_while_fixed(name, is_loose());
    lemma_tail_is_loose(name);
    assert forall|i: int| 0 <= i < owner.len() implies (#[trigger] owner[i] as u32) < 128 by {
        if i < name.len() + 1 {
            assert((name.push(apostrophe)[i] as u32) < 128);
        }
    }
    assert forall|i: int| 0 <= i < n implies (#[trigger] kept[i] as u32) < 128 by {
        assert(kept[i] == owner[i]);
    }
    assert forall|i: int| n <= i < name.len() implies ascii_lower_char(#[trigger] name[i])
        == name[i] by {
        assert(is_loose()(name.skip(n)[i - n]));
        assert((owner[i] as u32) < 128);
    }
    assert(lowercased(owner) =~= lowercased(kept) + name.skip(n).push(apostrophe).push('s'));
}

/// A prefix of words joined by single spaces that does not end in a space is
/// itself words joined by single spaces.
proof fn lemma_prefix_is_collapsed(list: Seq<Seq<char>>, n: int)
    requires
        forall|k: int| 0 <= k < list.len() ==> solid(#[trigger] list[k]),
        0 <= n <= joined(list, seq![' ']).len(),
        n > 0 ==> !is_white_space(joined(list, seq![' '])[n - 1]),
    ensures
        joined(words(joined(list, seq![' ']).take(n)), seq![' ']) == joined(list, seq![' ']).take(n),
    decreases list.len(),
{
    let whole = joined(list, seq![' ']);
    let prefix = whole.take(n);
    if n == 0 {
        assert(prefix =~= Seq::empty());
        assert(words(prefix) =~= Seq::empty());
    } else if list.len() == 0 {
    } else {
        let shorter = list.drop_last();
        assert forall|k: int| 0 <= k < shorter.len() implies solid(#[trigger] shorter[k]) by {
            assert(shorter[k] == list[k]);
        }
        assert(solid(list[list.len() - 1]));
        let front = joined(shorter, seq![' ']);
        let start: int = if list.len() == 1 { 0int } else { front.len() as int + 1 };
        if list.len() > 1 && n <= front.len() {
            assert(prefix =~= front.take(n));
            assert(front[n - 1] == whole[n - 1]);
            lemma_prefix_is_collapsed(shorter, n);
        } else {
            if list.len() > 1 {
                assert(whole[front.len() as int] == ' ');
                assert(n > front.len() + 1);
            }
            let part = list.last().take(n - start);
            assert(solid(part)) by {
                assert forall|i: int| 0 <= i < part.len() implies !is_white_space(
                    #[trigger] part[i],
                ) by {
                    assert(part[i] == list.last()[i]);
                }
            }
            let cut = shorter.push(part);
            assert(cut.drop_last() =~= shorter);
            if list.len() == 1 {
                assert(list.last() == list[0]);
                assert(cut =~= seq![part]);
                assert(prefix =~= part);
            } else {
                assert(prefix =~= front + seq![' '] + part);
            }
            assert(joined(cut, seq![' ']) == prefix);
            assert forall|k: int| 0 <= k < cut.len() implies solid(#[trigger] cut[k]) by {
                if k < shorter.len() {
                    assert(cut[k] == shorter[k]);
                }
            }
            splitting_undoes_joining(cut);
        }
    }
}

/// A name that is already plain is its own key, with all its words: it is in
/// lower case, its words stand one space apart, and it ends neither in a mark
/// nor in a possessive.
pub proof fn plain_names_are_their_own_keys(name: Seq<char>)
    requires
        name.len() > 0,
        lowercased(name) == name,
        joined(words(name), seq![' ']) == name,
        ({
            let last = name.last();
            !(last == '.' || last == ',' || last == ';' || last == ':' || last == '!' || last == '?'
                || last == '\'' || last == '\u{2019}' || is_white_space(last))
        }),
        name.last() != 's' || name.len() < 2 || (name[name.len() - 2] != '\'' && name[name.len() - 2]
            != '\u{2019}'),
    ensures
        canonical(name) == name,
{
    assert(unmarked(name) == name);
    assert(collapsed(name) == name);
    assert(bare(name) == name);
}

/// The marks that may end a sentence after a name are these, and white space.
pub proof fn marks_are_these(c: char)
    ensures
        is_loose()(c) <==> c == '.' || c == ',' || c == ';' || c == ':' || c == '!' || c == '?' || c
            == '\'' || c == '\u{2019}' || is_white_space(c),
{
}

} // verus!
