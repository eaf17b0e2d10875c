//! The graph leg of recall: which memories are connected to the things that
//! a query names.
//!
//! An edge is asserted by a memory, becomes valid when that memory was made,
//! and stays valid until a later memory contradicts it.
use crate::text::{
    alphanumeric, ascii_lower_char, chars_of, join, joined, lower_char, lowercase_char, texts,
};
use vstd::prelude::*;
use vstd::string::StringExecFns;

verus! {

/// A directed edge asserted by a memory: `subject`, `predicate`, `object`.
/// Subject and object are names as written.
#[derive(Debug, Clone, PartialEq, Eq)]
pub struct Relation {
    pub subject: String,
    pub predicate: String,
    pub object: String,
}

pub struct RelationView {
    pub subject: Seq<char>,
    pub predicate: Seq<char>,
    pub object: Seq<char>,
}

impl View for Relation {
    type V = RelationView;

    open spec fn view(&self) -> RelationView {
        RelationView { subject: self.subject@, predicate: self.predicate@, object: self.object@ }
    }
}

pub open spec fn relation_views(list: Seq<Relation>) -> Seq<RelationView> {
    list.map_values(|r: Relation| r@)
}

/// Whether a character is a letter or digit and its own lower case.
pub open spec fn is_small(c: char) -> bool {
    alphanumeric(c) && lower_char(c) == seq![c]
}

/// The letters and digits of a text that are their own lower case, in order.
pub open spec fn small_chars(s: Seq<char>) -> Seq<char>
    decreases s.len(),
{
    if s.len() == 0 {
        s
    } else if is_small(s.last()) {
        small_chars(s.drop_last()).push(s.last())
    } else {
        small_chars(s.drop_last())
    }
}

/// What a letter or digit counts as: its lower case. Of a lower case beyond
/// ASCII only the letters and digits count, and of those only what lower case
/// leaves alone.
pub open spec fn folded(c: char) -> Seq<char> {
    if (c as u32) < 128 {
        seq![ascii_lower_char(c)]
    } else {
        small_chars(lower_char(c))
    }
}

/// The runs of letters and digits of a text in lower case, given a run that
/// has begun.
pub open spec fn runs_from(s: Seq<char>, run: Seq<char>) -> Seq<Seq<char>>
    decreases s.len(),
{
    if s.len() == 0 {
        if run.len() == 0 {
            Seq::empty()
        } else {
            seq![run]
        }
    } else if alphanumeric(s[0]) {
        runs_from(s.drop_first(), run + folded(s[0]))
    } else if run.len() == 0 {
        runs_from(s.drop_first(), run)
    } else {
        seq![run] + runs_from(s.drop_first(), Seq::empty())
    }
}

/// The canonical form of a predicate: its runs of letters and digits in lower
/// case, joined by single underscores.
pub open spec fn canonical_predicate(raw: Seq<char>) -> Seq<char> {
    joined(runs_from(raw, Seq::empty()), seq!['_'])
}

/// What a letter or digit counts as.
fn fold_char(c: char) -> (lower: String)
    ensures
        lower@ == folded(c),
{
    let lower = lowercase_char(c);
    if (c as u32) < 128 {
        return lower;
    }
    let chars = chars_of(lower.as_str());
    let mut kept = String::new();
    let mut i: usize = 0;
    assert(chars@.take(0) =~= Seq::empty());
    while i < chars.len()
        invariant
            0 <= i <= chars@.len(),
            kept@ == small_chars(chars@.take(i as int)),
        decreases chars@.len() - i,
    {
        let d = chars[i];
        let mut alone = String::new();
        alone.push(d);
        proof {
            assert(chars@.take(i + 1).drop_last() =~= chars@.take(i as int));
            assert(chars@.take(i + 1).last() == d);
            assert(alone@ =~= seq![d]);
        }
        if d.is_alphanumeric() && lowercase_char(d) == alone {
            kept.push(d);
        }
        i += 1;
    }
    assert(chars@.take(chars@.len() as int) =~= chars@);
    kept
}

/// The canonical form of a predicate, the join key of invalidation: `deploys
/// on`, `Deploys-On` and `deploys_on` all become `deploys_on`.
pub fn normalise_predicate(raw: &str) -> (predicate: String)
    ensures
        predicate@ == canonical_predicate(raw@),
{
    let mut list: Vec<String> = Vec::new();
    let mut run = String::new();
    proof {
        assert(texts(list@) + runs_from(raw@.skip(0), run@) =~= runs_from(raw@, Seq::empty())) by {
            assert(raw@.skip(0) =~= raw@);
            assert(run@ =~= Seq::empty());
        }
    }
    for c in it: raw.chars()
        invariant
            it.seq() == raw@,
            texts(list@) + runs_from(raw@.skip(it.index() as int), run@) == runs_from(
                raw@,
                Seq::empty(),
            ),
    {
        let ghost rest = raw@.skip(it.index() as int);
        let ghost before = list@;
        let ghost old_run = run@;
        proof {
            assert(rest[0] == c);
            assert(rest.drop_first() =~= raw@.skip(it.index() as int + 1));
        }
        if c.is_alphanumeric() {
            let lower = fold_char(c);
            run.append(lower.as_str());
        } else if !run.as_str().is_empty() {
            let finished = run;
            run = String::new();
            list.push(finished);
            proof {
                assert(texts(list@) =~= texts(before) + seq![old_run]);
                assert(run@ =~= Seq::empty());
                assert(texts(list@) + runs_from(rest.drop_first(), run@) =~= texts(before) + (
                seq![old_run] + runs_from(rest.drop_first(), Seq::empty())));
            }
        }
    }
    proof {
        assert(raw@.skip(raw@.len() as int) =~= Seq::empty());
        reveal_strlit("_");
        assert("_"@ =~= seq!['_']);
    }
    if !run.as_str().is_empty() {
        let ghost before = list@;
        let ghost last = run@;
        list.push(run);
        proof {
            assert(texts(list@) =~= texts(before) + seq![last]);
        }
    } else {
        proof {
            assert(texts(list@) + Seq::<Seq<char>>::empty() =~= texts(list@));
        }
    }
    join(&list, "_")
}

/// Letters and digits only, each its own lower case.
spec fn settled(s: Seq<char>) -> bool {
    forall|i: int| 0 <= i < s.len() ==> is_small(#[trigger] s[i])
}

proof fn lemma_small_chars(s: Seq<char>)
    ensures
        settled(small_chars(s)),
    decreases s.len(),
{
    if s.len() > 0 {
        lemma_small_chars(s.drop_last());
    }
}

/// What a letter or digit counts as counts as itself.
proof fn lemma_folded(c: char)
    requires
        alphanumeric(c),
    ensures
        settled(folded(c)),
        is_small(c) ==> folded(c) == seq![c],
{
    if (c as u32) >= 128 {
        lemma_small_chars(lower_char(c));
        if is_small(c) {
            let one = seq![c];
            assert(one.last() == c);
            assert(one.drop_last() =~= Seq::empty());
            assert(small_chars(one.drop_last()) =~= Seq::empty());
            assert(small_chars(one) =~= one);
        }
    } else {
        assert(is_small(ascii_lower_char(c)));
    }
}

proof fn lemma_runs_are_settled(s: Seq<char>, run: Seq<char>)
    requires
        settled(run),
    ensures
        forall|k: int|
            0 <= k < runs_from(s, run).len() ==> settled(#[trigger] runs_from(s, run)[k])
                && runs_from(s, run)[k].len() > 0,
    decreases s.len(),
{
    let all = runs_from(s, run);
    if s.len() == 0 {
        if run.len() > 0 {
            assert(all == seq![run]);
        }
    } else {
        let rest = s.drop_first();
        if alphanumeric(s[0]) {
            lemma_folded(s[0]);
            let grown = run + folded(s[0]);
            assert forall|i: int| 0 <= i < grown.len() implies is_small(#[trigger] grown[i]) by {
                if i < run.len() {
                    assert(grown[i] == run[i]);
                } else {
                    assert(grown[i] == folded(s[0])[i - run.len()]);
                }
            }
            lemma_runs_are_settled(rest, grown);
            assert(all == runs_from(rest, grown));
        } else if run.len() == 0 {
            lemma_runs_are_settled(rest, run);
            assert(all == runs_from(rest, run));
        } else {
            lemma_runs_are_settled(rest, Seq::empty());
            let later = runs_from(rest, Seq::empty());
            assert(all == seq![run] + later);
            assert forall|k: int| 0 <= k < all.len() implies settled(#[trigger] all[k])
                && all[k].len() > 0 by {
                if k > 0 {
                    assert(all[k] == later[k - 1]);
                }
            }
        }
    }
}

proof fn lemma_one_run(w: Seq<char>, run: Seq<char>)
    requires
        settled(w),
        run.len() + w.len() > 0,
    ensures
        runs_from(w, run) == seq![run + w],
    decreases w.len(),
{
    if w.len() == 0 {
        assert(run + w =~= run);
    } else {
        let rest = w.drop_first();
        assert(is_small(w[0]));
        lemma_folded(w[0]);
        assert forall|i: int| 0 <= i < rest.len() implies is_small(#[trigger] rest[i]) by {
            assert(rest[i] == w[i + 1]);
        }
        lemma_one_run(rest, run + seq![w[0]]);
        assert(run + seq![w[0]] + rest =~= run + w);
    }
}

proof fn lemma_runs_append(a: Seq<char>, w: Seq<char>, run: Seq<char>)
    requires
        w.len() > 0,
        settled(w),
    ensures
        runs_from(a + seq!['_'] + w, run) == runs_from(a, run).push(w),
    decreases a.len(),
{
    let whole = a + seq!['_'] + w;
    if a.len() == 0 {
        assert(whole[0] == '_');
        assert(whole.drop_first() =~= w);
        lemma_one_run(w, Seq::empty());
        assert(Seq::<char>::empty() + w =~= w);
        if run.len() == 0 {
            assert(run =~= Seq::empty());
            assert(runs_from(a, run).push(w) =~= seq![w]);
        } else {
            assert(seq![run] + seq![w] =~= seq![run].push(w));
        }
    } else {
        assert(whole[0] == a[0]);
        assert(whole.drop_first() =~= a.drop_first() + seq!['_'] + w);
        if alphanumeric(a[0]) {
            lemma_runs_append(a.drop_first(), w, run + folded(a[0]));
        } else if run.len() == 0 {
            lemma_runs_append(a.drop_first(), w, run);
        } else {
            lemma_runs_append(a.drop_first(), w, Seq::empty());
            assert(seq![run] + runs_from(a.drop_first(), Seq::empty()).push(w) =~= (seq![run]
                + runs_from(a.drop_first(), Seq::empty())).push(w));
        }
    }
}

proof fn lemma_runs_of_joined(list: Seq<Seq<char>>)
    requires
        forall|k: int| 0 <= k < list.len() ==> settled(#[trigger] list[k]) && list[k].len() > 0,
    ensures
        runs_from(joined(list, seq!['_']), Seq::empty()) == list,
    decreases list.len(),
{
    if list.len() == 0 {
        assert(list =~= Seq::empty());
    } else if list.len() == 1 {
        assert(settled(list[0]));
        lemma_one_run(list[0], Seq::empty());
        assert(Seq::<char>::empty() + list[0] =~= list[0]);
        assert(list =~= seq![list[0]]);
    } else {
        let shorter = list.drop_last();
        assert forall|k: int| 0 <= k < shorter.len() implies settled(#[trigger] shorter[k])
            && shorter[k].len() > 0 by {
            assert(shorter[k] == list[k]);
        }
        lemma_runs_of_joined(shorter);
        assert(settled(list[list.len() - 1]));
        lemma_runs_append(joined(shorter, seq!['_']), list.last(), Seq::empty());
        assert(shorter.push(list.last()) =~= list);
    }
}

/// Normalising a predicate again changes nothing, so a writer that files
/// `deploys_on` and a reader that looks up `deploys on` always meet.
pub proof fn normalising_predicates_is_idempotent(raw: Seq<char>)
    ensures
        canonical_predicate(canonical_predicate(raw)) == canonical_predicate(raw),
{
    lemma_runs_are_settled(raw, Seq::empty());
    lemma_runs_of_joined(runs_from(raw, Seq::empty()));
}

proof fn lemma_runs_split(a: Seq<char>, c: char, b: Seq<char>, run: Seq<char>)
    requires
        !alphanumeric(c),
    ensures
        runs_from(a + seq![c] + b, run) == runs_from(a, run) + runs_from(b, Seq::empty()),
    decreases a.len(),
{
    let whole = a + seq![c] + b;
    if a.len() == 0 {
        assert(whole[0] == c);
        assert(whole.drop_first() =~= b);
        if run.len() == 0 {
            assert(run =~= Seq::empty());
            assert(runs_from(a, run) =~= Seq::empty());
        }
        assert(runs_from(whole, run) =~= runs_from(a, run) + runs_from(b, Seq::empty()));
    } else {
        let rest = a.drop_first();
        assert(whole[0] == a[0]);
        assert(whole.drop_first() =~= rest + seq![c] + b);
        if alphanumeric(a[0]) {
            lemma_runs_split(rest, c, b, run + folded(a[0]));
        } else if run.len() == 0 {
            lemma_runs_split(rest, c, b, run);
        } else {
            lemma_runs_split(rest, c, b, Seq::empty());
        }
        assert(runs_from(whole, run) =~= runs_from(a, run) + runs_from(b, Seq::empty()));
    }
}

/// Whatever is neither letter nor digit only parts words: a predicate is the
/// canonical form of what stands before it and of what stands behind it, with an
/// underscore between them where there is something on both sides.
pub proof fn separators_part_and_nothing_more(a: Seq<char>, c: char, b: Seq<char>)
    requires
        !alphanumeric(c),
    ensures
        ({
            let (before, after) = (runs_from(a, Seq::empty()), runs_from(b, Seq::empty()));
            let whole = canonical_predicate(a + seq![c] + b);
            &&& before.len() > 0 && after.len() > 0 ==> whole == canonical_predicate(a) + seq!['_']
                + canonical_predicate(b)
            &&& before.len() == 0 ==> whole == canonical_predicate(b)
            &&& after.len() == 0 ==> whole == canonical_predicate(a)
        }),
{
    lemma_runs_split(a, c, b, Seq::empty());
    let (before, after) = (runs_from(a, Seq::empty()), runs_from(b, Seq::empty()));
    crate::text::joining_puts_one_separator_between(before, after, Seq::empty(), seq!['_']);
    if before.len() == 0 {
        assert(before + after =~= after);
    }
    if after.len() == 0 {
        assert(before + after =~= before);
    }
}

proof fn lemma_ascii_run(w: Seq<char>, run: Seq<char>)
    requires
        run.len() + w.len() > 0,
        forall|i: int| 0 <= i < w.len() ==> crate::text::ascii_alphanumeric(#[trigger] w[i]),
    ensures
        runs_from(w, run) == seq![run + crate::text::ascii_lower(w)],
    decreases w.len(),
{
    if w.len() == 0 {
        assert(run + crate::text::ascii_lower(w) =~= run);
    } else {
        let rest = w.drop_first();
        assert(crate::text::ascii_alphanumeric(w[0]));
        assert forall|i: int| 0 <= i < rest.len() implies crate::text::ascii_alphanumeric(
            #[trigger] rest[i],
        ) by {
            assert(rest[i] == w[i + 1]);
        }
        lemma_ascii_run(rest, run + folded(w[0]));
        assert(run + folded(w[0]) + crate::text::ascii_lower(rest) =~= run
            + crate::text::ascii_lower(w));
    }
}

/// A word of ASCII letters and digits keeps all of them, in lower case; and
/// nothing comes of nothing.
pub proof fn words_of_a_predicate_keep_their_letters(w: Seq<char>)
    requires
        w.len() > 0,
        forall|i: int| 0 <= i < w.len() ==> crate::text::ascii_alphanumeric(#[trigger] w[i]),
    ensures
        canonical_predicate(w) == crate::text::ascii_lower(w),
        canonical_predicate(Seq::empty()) == Seq::<char>::empty(),
{
    lemma_ascii_run(w, Seq::empty());
    assert(Seq::<char>::empty() + crate::text::ascii_lower(w) =~= crate::text::ascii_lower(w));
}

} // verus!
