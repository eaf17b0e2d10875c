//! Text as sequences of characters: the trimming, splitting, joining and
//! rendering that the rest of the library is stated in.
use vstd::prelude::*;
use vstd::string::StrSliceExecFns;
use vstd::string::StringExecFns;

verus! {

/// `String::push` appends one character.
pub assume_specification[ String::push ](text: &mut String, c: char)
    ensures
        final(text)@ == old(text)@.push(c),
;

/// The characters with the Unicode `White_Space` property.
pub open spec fn is_white_space(c: char) -> bool {
    let n = c as u32;
    ||| 0x9 <= n <= 0xd
    ||| n == 0x20
    ||| n == 0x85
    ||| n == 0xa0
    ||| n == 0x1680
    ||| 0x2000 <= n <= 0x200a
    ||| n == 0x2028
    ||| n == 0x2029
    ||| n == 0x202f
    ||| n == 0x205f
    ||| n == 0x3000
}

pub fn white_space(c: char) -> (white: bool)
    ensures
        white == is_white_space(c),
{
    let n: u32 = c as u32;
    (0x9 <= n && n <= 0xd) || n == 0x20 || n == 0x85 || n == 0xa0 || n == 0x1680 || (0x2000 <= n
        && n <= 0x200a) || n == 0x2028 || n == 0x2029 || n == 0x202f || n == 0x205f || n == 0x3000
}

/// `s` without the leading characters that satisfy `p`.
pub open spec fn drop_start_while(s: Seq<char>, p: spec_fn(char) -> bool) -> Seq<char>
    decreases s.len(),
{
    if s.len() > 0 && p(s[0]) {
        drop_start_while(s.drop_first(), p)
    } else {
        s
    }
}

/// `s` without the trailing characters that satisfy `p`.
pub open spec fn drop_end_while(s: Seq<char>, p: spec_fn(char) -> bool) -> Seq<char>
    decreases s.len(),
{
    if s.len() > 0 && p(s.last()) {
        drop_end_while(s.drop_last(), p)
    } else {
        s
    }
}

/// The white-space predicate as a value, so that two uses of it are one term.
pub open spec fn white() -> spec_fn(char) -> bool {
    |c: char| is_white_space(c)
}

pub open spec fn trimmed_end(s: Seq<char>) -> Seq<char> {
    drop_end_while(s, white())
}

/// `s` without leading and trailing white space.
pub open spec fn trimmed(s: Seq<char>) -> Seq<char> {
    trimmed_end(drop_start_while(s, white()))
}

proof fn lemma_drop_start_while(s: Seq<char>, p: spec_fn(char) -> bool, from: int)
    requires
        0 <= from <= s.len(),
        forall|i: int| 0 <= i < from ==> p(#[trigger] s[i]),
        from < s.len() ==> !p(s[from]),
    ensures
        drop_start_while(s, p) == s.subrange(from, s.len() as int),
    decreases s.len(),
{
    if from > 0 {
        assert(forall|i: int|
            0 <= i < s.drop_first().len() ==> #[trigger] s.drop_first()[i] == s[i + 1]);
        lemma_drop_start_while(s.drop_first(), p, from - 1);
        assert(s.drop_first().subrange(from - 1, s.len() - 1) =~= s.subrange(from, s.len() as int));
    } else {
        assert(s.subrange(0, s.len() as int) =~= s);
    }
}

pub proof fn lemma_drop_end_while(s: Seq<char>, p: spec_fn(char) -> bool, to: int)
    requires
        0 <= to <= s.len(),
        forall|i: int| to <= i < s.len() ==> p(#[trigger] s[i]),
        to > 0 ==> !p(s[to - 1]),
    ensures
        drop_end_while(s, p) == s.subrange(0, to),
    decreases s.len(),
{
    if to < s.len() {
        lemma_drop_end_while(s.drop_last(), p, to);
        assert(s.drop_last().subrange(0, to) =~= s.subrange(0, to));
    } else {
        assert(s.subrange(0, to) =~= s);
    }
}

/// The characters of a text, one by one.
pub fn chars_of(text: &str) -> (chars: Vec<char>)
    ensures
        chars@ == text@,
{
    let mut chars: Vec<char> = Vec::new();
    for c in it: text.chars()
        invariant
            it.seq() == text@,
            chars@ == text@.take(it.index() as int),
    {
        chars.push(c);
        assert(text@.take(it.index() as int + 1) =~= text@.take(it.index() as int).push(c));
    }
    assert(text@.take(text@.len() as int) =~= text@);
    chars
}

/// The text made of the characters `from..to` of `chars`.
pub fn text_of_range(chars: &Vec<char>, from: usize, to: usize) -> (text: String)
    requires
        from <= to <= chars@.len(),
    ensures
        text@ == chars@.subrange(from as int, to as int),
{
    let mut text = String::new();
    let mut i: usize = from;
    while i < to
        invariant
            from <= i <= to <= chars@.len(),
            text@ == chars@.subrange(from as int, i as int),
        decreases to - i,
    {
        text.push(chars[i]);
        assert(chars@.subrange(from as int, i + 1) =~= chars@.subrange(from as int, i as int).push(
            chars@[i as int],
        ));
        i += 1;
    }
    text
}

/// Leading and trailing white space removed.
pub fn trim(text: &str) -> (trimmed_text: String)
    ensures
        trimmed_text@ == trimmed(text@),
{
    let chars = chars_of(text);
    let mut from: usize = 0;
    while from < chars.len() && white_space(chars[from])
        invariant
            0 <= from <= chars@.len(),
            forall|i: int| 0 <= i < from ==> is_white_space(#[trigger] chars@[i]),
        decreases chars@.len() - from,
    {
        from += 1;
    }
    proof {
        lemma_drop_start_while(chars@, white(), from as int);
    }
    let ghost rest = chars@.subrange(from as int, chars@.len() as int);
    let mut to: usize = chars.len();
    while to > from && white_space(chars[to - 1])
        invariant
            from <= to <= chars@.len(),
            forall|i: int| to <= i < chars@.len() ==> is_white_space(#[trigger] chars@[i]),
        decreases to,
    {
        to -= 1;
    }
    proof {
        assert forall|i: int| to - from <= i < rest.len() implies white()(#[trigger] rest[i]) by {
            assert(rest[i] == chars@[i + from]);
        }
        lemma_drop_end_while(rest, white(), to - from);
        assert(rest.subrange(0, to - from) =~= chars@.subrange(from as int, to as int));
    }
    text_of_range(&chars, from, to)
}

/// Trailing white space removed.
pub fn trim_end(text: &str) -> (trimmed_text: String)
    ensures
        trimmed_text@ == trimmed_end(text@),
{
    let chars = chars_of(text);
    let mut to: usize = chars.len();
    while to > 0 && white_space(chars[to - 1])
        invariant
            0 <= to <= chars@.len(),
            forall|i: int| to <= i < chars@.len() ==> is_white_space(#[trigger] chars@[i]),
        decreases to,
    {
        to -= 1;
    }
    proof {
        lemma_drop_end_while(chars@, white(), to as int);
    }
    text_of_range(&chars, 0, to)
}

/// The predicate that holds of one character only.
pub open spec fn is_char(wanted: char) -> spec_fn(char) -> bool {
    |c: char| c == wanted
}

/// Every trailing `unwanted` removed.
pub fn trim_end_char(text: &str, unwanted: char) -> (trimmed_text: String)
    ensures
        trimmed_text@ == drop_end_while(text@, is_char(unwanted)),
{
    let chars = chars_of(text);
    let mut to: usize = chars.len();
    while to > 0 && chars[to - 1] == unwanted
        invariant
            0 <= to <= chars@.len(),
            forall|i: int| to <= i < chars@.len() ==> #[trigger] chars@[i] == unwanted,
        decreases to,
    {
        to -= 1;
    }
    proof {
        lemma_drop_end_while(chars@, is_char(unwanted), to as int);
    }
    text_of_range(&chars, 0, to)
}

/// ASCII letters in lower case, every other character as it is.
pub open spec fn ascii_lower_char(c: char) -> char {
    if 'A' <= c <= 'Z' {
        ((c as u8) + 32) as char
    } else {
        c
    }
}

pub fn to_ascii_lower(c: char) -> (lower: char)
    ensures
        lower == ascii_lower_char(c),
{
    if 'A' <= c && c <= 'Z' {
        let b: u8 = c as u8;
        (b + 32) as char
    } else {
        c
    }
}

pub open spec fn ascii_lower(s: Seq<char>) -> Seq<char> {
    s.map_values(|c: char| ascii_lower_char(c))
}

/// The text with its ASCII letters in lower case.
pub fn ascii_lowercase(text: &str) -> (lower: String)
    ensures
        lower@ == ascii_lower(text@),
{
    let mut lower = String::new();
    for c in it: text.chars()
        invariant
            it.seq() == text@,
            lower@ == ascii_lower(text@.take(it.index() as int)),
    {
        lower.push(to_ascii_lower(c));
        assert(text@.take(it.index() as int + 1) =~= text@.take(it.index() as int).push(c));
        assert(ascii_lower(text@.take(it.index() as int + 1)) =~= ascii_lower(
            text@.take(it.index() as int),
        ).push(ascii_lower_char(c)));
    }
    assert(text@.take(text@.len() as int) =~= text@);
    lower
}

/// What a tag, a filter or a category name is compared by: trimmed, with
/// ASCII letters in lower case.
pub open spec fn folded(s: Seq<char>) -> Seq<char> {
    ascii_lower(trimmed(s))
}

pub fn fold(text: &str) -> (folded_text: String)
    ensures
        folded_text@ == folded(text@),
{
    ascii_lowercase(trim(text).as_str())
}

pub proof fn lemma_drop_end_while_fixed(s: Seq<char>, p: spec_fn(char) -> bool)
    ensures
        drop_end_while(s, p).len() > 0 ==> !p(drop_end_while(s, p).last()),
        drop_end_while(s, p).len() <= s.len(),
        drop_end_while(s, p) == s.take(drop_end_while(s, p).len() as int),
    decreases s.len(),
{
    if s.len() > 0 && p(s.last()) {
        lemma_drop_end_while_fixed(s.drop_last(), p);
        let kept = drop_end_while(s, p);
        assert(s.drop_last().take(kept.len() as int) =~= s.take(kept.len() as int));
    } else {
        assert(s.take(s.len() as int) =~= s);
    }
}

proof fn lemma_drop_start_while_fixed(s: Seq<char>, p: spec_fn(char) -> bool)
    ensures
        drop_start_while(s, p).len() > 0 ==> !p(drop_start_while(s, p)[0]),
        drop_start_while(s, p).len() <= s.len(),
    decreases s.len(),
{
    if s.len() > 0 && p(s[0]) {
        lemma_drop_start_while_fixed(s.drop_first(), p);
    }
}

/// A trimmed text neither begins nor ends with white space.
pub proof fn trimmed_has_no_white_ends(s: Seq<char>)
    ensures
        trimmed(s).len() > 0 ==> !is_white_space(trimmed(s)[0]) && !is_white_space(
            trimmed(s).last(),
        ),
        trimmed(s).len() <= s.len(),
{
    let rest = drop_start_while(s, white());
    lemma_drop_start_while_fixed(s, white());
    lemma_drop_end_while_fixed(rest, white());
    if trimmed(s).len() > 0 {
        assert(trimmed(s)[0] == rest[0]);
        assert(!white()(rest[0]));
        assert(!white()(trimmed(s).last()));
    }
}

/// Trimming leaves a text alone that neither begins nor ends with white space.
pub proof fn trimming_keeps_trimmed(s: Seq<char>)
    requires
        s.len() > 0 ==> !is_white_space(s[0]) && !is_white_space(s.last()),
    ensures
        trimmed(s) == s,
{
    assert(drop_start_while(s, white()) == s);
    assert(drop_end_while(s, white()) == s);
}

proof fn lemma_lower_char(c: char)
    ensures
        ascii_lower_char(ascii_lower_char(c)) == ascii_lower_char(c),
        is_white_space(ascii_lower_char(c)) == is_white_space(c),
{
}

/// Lower case of lower case changes nothing.
pub proof fn ascii_lower_is_idempotent(s: Seq<char>)
    ensures
        ascii_lower(ascii_lower(s)) == ascii_lower(s),
{
    assert forall|i: int| 0 <= i < s.len() implies #[trigger] ascii_lower(ascii_lower(s))[i]
        == ascii_lower(s)[i] by {
        lemma_lower_char(s[i]);
    }
    assert(ascii_lower(ascii_lower(s)) =~= ascii_lower(s));
}

/// Folding a folded text changes nothing.
pub proof fn folding_is_idempotent(s: Seq<char>)
    ensures
        folded(folded(s)) == folded(s),
{
    let t = trimmed(s);
    trimmed_has_no_white_ends(s);
    if t.len() > 0 {
        lemma_lower_char(t[0]);
        lemma_lower_char(t.last());
    }
    trimming_keeps_trimmed(folded(s));
    ascii_lower_is_idempotent(t);
}

/// ASCII letters and digits.
pub open spec fn ascii_alphanumeric(c: char) -> bool {
    'a' <= c <= 'z' || 'A' <= c <= 'Z' || '0' <= c <= '9'
}

/// Letters and digits beyond ASCII.
pub uninterp spec fn unicode_alphanumeric(c: char) -> bool;

/// Letters and digits.
pub open spec fn alphanumeric(c: char) -> bool {
    if (c as u32) < 128 {
        ascii_alphanumeric(c)
    } else {
        unicode_alphanumeric(c)
    }
}

/// `char::is_alphanumeric`: the ASCII letters and digits, and beyond ASCII
/// what Unicode says.
pub assume_specification[ char::is_alphanumeric ](c: char) -> (is: bool)
    ensures
        is == if (c as u32) < 128 {
            ascii_alphanumeric(c)
        } else {
            unicode_alphanumeric(c)
        },
;

/// The lower case of a character beyond ASCII, which may be several.
pub uninterp spec fn unicode_lower_char(c: char) -> Seq<char>;

/// The lower case of a character.
pub open spec fn lower_char(c: char) -> Seq<char> {
    if (c as u32) < 128 {
        seq![ascii_lower_char(c)]
    } else {
        unicode_lower_char(c)
    }
}

/// `char::to_lowercase`: an ASCII letter's lower case, and beyond ASCII what
/// Unicode says.
#[verifier::external_body]
pub(crate) fn lowercase_char(c: char) -> (lower: String)
    ensures
        lower@ == if (c as u32) < 128 {
            seq![ascii_lower_char(c)]
        } else {
            unicode_lower_char(c)
        },
{
    c.to_lowercase().to_string()
}

/// The lower case of a text that is not all ASCII; it may depend on where in
/// a word a letter stands.
pub uninterp spec fn unicode_lowercase(s: Seq<char>) -> Seq<char>;

/// Whether every character is ASCII.
pub open spec fn all_ascii(s: Seq<char>) -> bool {
    forall|i: int| 0 <= i < s.len() ==> (#[trigger] s[i] as u32) < 128
}

/// The lower case of a text.
pub open spec fn lowercased(s: Seq<char>) -> Seq<char> {
    if all_ascii(s) {
        ascii_lower(s)
    } else {
        unicode_lowercase(s)
    }
}

/// `str::to_lowercase`: ASCII letters in lower case, and beyond ASCII what
/// Unicode says.
#[verifier::external_body]
pub(crate) fn lowercase(text: &str) -> (lower: String)
    ensures
        lower@ == if all_ascii(text@) {
            ascii_lower(text@)
        } else {
            unicode_lowercase(text@)
        },
{
    text.to_lowercase()
}

/// A text in double quotes with what needs escaping escaped, as `Debug` of
/// `str` writes it.
pub uninterp spec fn debug_text(s: Seq<char>) -> Seq<char>;

/// `Debug` of `str`. Which characters are escaped, and how, is left to the
/// name.
#[verifier::external_body]
pub(crate) fn quote(text: &str) -> (quoted: String)
    ensures
        quoted@ == debug_text(text@),
{
    format!("{:?}", text)
}

/// Whether two texts hold the same characters.
pub fn same_text(a: &str, b: &str) -> (same: bool)
    ensures
        same == (a@ == b@),
{
    a.to_owned() == b.to_owned()
}

/// The texts of a list.
pub open spec fn texts(list: Seq<String>) -> Seq<Seq<char>> {
    list.map_values(|t: String| t@)
}

/// A copy of a list of texts.
pub fn copy_texts(list: &Vec<String>) -> (copy: Vec<String>)
    ensures
        copy@ == list@,
{
    let mut copy: Vec<String> = Vec::new();
    let mut i: usize = 0;
    while i < list.len()
        invariant
            0 <= i <= list@.len(),
            copy@ == list@.take(i as int),
        decreases list@.len() - i,
    {
        copy.push(list[i].clone());
        assert(list@.take(i + 1) =~= list@.take(i as int).push(list@[i as int]));
        i += 1;
    }
    assert(list@.take(list@.len() as int) =~= list@);
    copy
}

/// A copy of an optional text.
pub fn copy_option(text: &Option<String>) -> (copy: Option<String>)
    ensures
        copy == *text,
{
    match text {
        Some(t) => Some(t.clone()),
        None => None,
    }
}

/// `parts` with `separator` between neighbours.
pub open spec fn joined(parts: Seq<Seq<char>>, separator: Seq<char>) -> Seq<char>
    decreases parts.len(),
{
    if parts.len() == 0 {
        Seq::empty()
    } else if parts.len() == 1 {
        parts[0]
    } else {
        joined(parts.drop_last(), separator) + separator + parts.last()
    }
}

pub fn join(parts: &Vec<String>, separator: &str) -> (text: String)
    ensures
        text@ == joined(texts(parts@), separator@),
{
    let mut text = String::new();
    let mut i: usize = 0;
    while i < parts.len()
        invariant
            0 <= i <= parts@.len(),
            text@ == joined(texts(parts@.take(i as int)), separator@),
        decreases parts@.len() - i,
    {
        proof {
            let grown = texts(parts@.take(i + 1));
            assert(grown.drop_last() =~= texts(parts@.take(i as int)));
            assert(grown.last() == parts@[i as int]@);
            if i == 0 {
                assert(grown[0] == parts@[0]@);
            }
        }
        if i > 0 {
            text.append(separator);
        }
        text.append(parts[i].as_str());
        i += 1;
    }
    assert(parts@.take(parts@.len() as int) =~= parts@);
    text
}

/// The white-space separated words of a text, given a word that has begun.
pub open spec fn words_from(s: Seq<char>, word: Seq<char>) -> Seq<Seq<char>>
    decreases s.len(),
{
    if s.len() == 0 {
        if word.len() == 0 {
            Seq::empty()
        } else {
            seq![word]
        }
    } else if is_white_space(s[0]) {
        if word.len() == 0 {
            words_from(s.drop_first(), word)
        } else {
            seq![word] + words_from(s.drop_first(), Seq::empty())
        }
    } else {
        words_from(s.drop_first(), word.push(s[0]))
    }
}

/// The maximal runs of characters that are not white space, in order.
pub open spec fn words(s: Seq<char>) -> Seq<Seq<char>> {
    words_from(s, Seq::empty())
}

pub fn split_words(text: &str) -> (list: Vec<String>)
    ensures
        texts(list@) == words(text@),
{
    let mut list: Vec<String> = Vec::new();
    let mut word = String::new();
    proof {
        assert(texts(list@) + words_from(text@.skip(0), word@) =~= words(text@)) by {
            assert(text@.skip(0) =~= text@);
            assert(word@ =~= Seq::empty());
        }
    }
    for c in it: text.chars()
        invariant
            it.seq() == text@,
            texts(list@) + words_from(text@.skip(it.index() as int), word@) == words(text@),
    {
        let ghost rest = text@.skip(it.index() as int);
        let ghost before = list@;
        let ghost old_word = word@;
        proof {
            assert(rest[0] == c);
            assert(rest.drop_first() =~= text@.skip(it.index() as int + 1));
        }
        if white_space(c) {
            if word.as_str().is_empty() {
                assert(word@ == old_word);
            } else {
                let finished = word;
                word = String::new();
                list.push(finished);
                proof {
                    assert(texts(list@) =~= texts(before) + seq![old_word]);
                    assert(word@ =~= Seq::empty());
                    assert(texts(list@) + words_from(rest.drop_first(), word@) =~= texts(before) + (
                    seq![old_word] + words_from(rest.drop_first(), Seq::empty())));
                }
            }
        } else {
            word.push(c);
        }
    }
    proof {
        assert(text@.skip(text@.len() as int) =~= Seq::empty());
    }
    if !word.as_str().is_empty() {
        let ghost before = list@;
        let ghost last = word@;
        list.push(word);
        proof {
            assert(texts(list@) =~= texts(before) + seq![last]);
        }
    } else {
        proof {
            assert(texts(list@) + Seq::<Seq<char>>::empty() =~= texts(list@));
        }
    }
    list
}

proof fn lemma_words_append(a: Seq<char>, w: Seq<char>, word: Seq<char>)
    requires
        w.len() > 0,
        forall|i: int| 0 <= i < w.len() ==> !is_white_space(#[trigger] w[i]),
    ensures
        words_from(a + seq![' '] + w, word) == words_from(a, word).push(w),
    decreases a.len(),
{
    let whole = a + seq![' '] + w;
    if a.len() == 0 {
        assert(whole =~= seq![' '] + w);
        assert(whole[0] == ' ');
        assert(whole.drop_first() =~= w);
        lemma_one_word(w, Seq::empty());
        assert(Seq::<char>::empty() + w =~= w);
        if word.len() == 0 {
            assert(words_from(a, word).push(w) =~= seq![w]);
            assert(word =~= Seq::empty());
        } else {
            assert(seq![word] + seq![w] =~= seq![word].push(w));
        }
    } else {
        assert(whole[0] == a[0]);
        assert(whole.drop_first() =~= a.drop_first() + seq![' '] + w);
        if is_white_space(a[0]) {
            if word.len() == 0 {
                lemma_words_append(a.drop_first(), w, word);
            } else {
                lemma_words_append(a.drop_first(), w, Seq::empty());
                assert(seq![word] + words_from(a.drop_first(), Seq::empty()).push(w) =~= (seq![word]
                    + words_from(a.drop_first(), Seq::empty())).push(w));
            }
        } else {
            lemma_words_append(a.drop_first(), w, word.push(a[0]));
        }
    }
}

proof fn lemma_one_word(w: Seq<char>, word: Seq<char>)
    requires
        word.len() + w.len() > 0,
        forall|i: int| 0 <= i < w.len() ==> !is_white_space(#[trigger] w[i]),
    ensures
        words_from(w, word) == seq![word + w],
    decreases w.len(),
{
    if w.len() == 0 {
        assert(word + w =~= word);
    } else {
        let rest = w.drop_first();
        assert forall|i: int| 0 <= i < rest.len() implies !is_white_space(#[trigger] rest[i]) by {
            assert(rest[i] == w[i + 1]);
        }
        lemma_one_word(rest, word.push(w[0]));
        assert(word.push(w[0]) + rest =~= word + w);
    }
}

proof fn lemma_words_are_solid(s: Seq<char>, word: Seq<char>)
    requires
        forall|i: int| 0 <= i < word.len() ==> !is_white_space(#[trigger] word[i]),
    ensures
        forall|k: int|
            0 <= k < words_from(s, word).len() ==> solid(#[trigger] words_from(s, word)[k]),
    decreases s.len(),
{
    let all = words_from(s, word);
    if word.len() > 0 {
        assert(solid(word));
    }
    if s.len() == 0 {
        if word.len() > 0 {
            assert(all == seq![word]);
        }
    } else if is_white_space(s[0]) {
        lemma_words_are_solid(s.drop_first(), Seq::empty());
        let rest = words_from(s.drop_first(), Seq::empty());
        if word.len() == 0 {
            assert(word =~= Seq::empty());
            assert(all == rest);
        } else {
            assert(all == seq![word] + rest);
            assert forall|k: int| 0 <= k < all.len() implies solid(#[trigger] all[k]) by {
                if k > 0 {
                    assert(all[k] == rest[k - 1]);
                }
            }
        }
    } else {
        lemma_words_are_solid(s.drop_first(), word.push(s[0]));
        assert(all == words_from(s.drop_first(), word.push(s[0])));
    }
}

/// One more character that is not white space joins the word that has begun,
/// or begins one.
pub proof fn lemma_words_push(s: Seq<char>, word: Seq<char>, c: char)
    requires
        !is_white_space(c),
    ensures
        ({
            let before = words_from(s, word);
            let after = words_from(s.push(c), word);
            if (s.len() == 0 && word.len() > 0) || (s.len() > 0 && !is_white_space(s.last())) {
                before.len() > 0 && after == before.drop_last().push(before.last().push(c))
            } else {
                after == before.push(seq![c])
            }
        }),
    decreases s.len(),
{
    let before = words_from(s, word);
    let after = words_from(s.push(c), word);
    if s.len() == 0 {
        assert(s.push(c).drop_first() =~= Seq::empty());
        assert(s.push(c)[0] == c);
        assert(words_from(Seq::empty(), word.push(c)) == seq![word.push(c)]);
        assert(after == seq![word.push(c)]);
        if word.len() == 0 {
            assert(word.push(c) =~= seq![c]);
            assert(after =~= before.push(seq![c]));
        } else {
            assert(after =~= before.drop_last().push(before.last().push(c)));
        }
    } else {
        let rest = s.drop_first();
        assert(s.push(c).drop_first() =~= rest.push(c));
        if !is_white_space(s[0]) {
            lemma_words_push(rest, word.push(s[0]), c);
        } else if word.len() == 0 {
            lemma_words_push(rest, word, c);
        } else {
            lemma_words_push(rest, Seq::empty(), c);
            let later = words_from(rest, Seq::empty());
            assert(before == seq![word] + later);
            if rest.len() > 0 && !is_white_space(s.last()) {
                assert(after =~= before.drop_last().push(before.last().push(c)));
            } else {
                assert(after =~= before.push(seq![c]));
            }
        }
    }
}

/// White space behind a text adds no word.
pub proof fn lemma_words_push_space(s: Seq<char>, word: Seq<char>, c: char)
    requires
        is_white_space(c),
    ensures
        words_from(s.push(c), word) == words_from(s, word),
    decreases s.len(),
{
    if s.len() == 0 {
        assert(s.push(c)[0] == c);
        assert(s.push(c).drop_first() =~= s);
        assert(words_from(s, Seq::empty()) =~= Seq::empty());
        assert(words_from(s.push(c), word) =~= words_from(s, word));
    } else {
        let rest = s.drop_first();
        assert(s.push(c).drop_first() =~= rest.push(c));
        lemma_words_push_space(rest, word.push(s[0]), c);
        lemma_words_push_space(rest, word, c);
        lemma_words_push_space(rest, Seq::empty(), c);
    }
}

/// A word: not empty, and without white space.
pub open spec fn solid(w: Seq<char>) -> bool {
    w.len() > 0 && forall|i: int| 0 <= i < w.len() ==> !is_white_space(#[trigger] w[i])
}

/// The words of a text are words.
pub proof fn words_are_solid(s: Seq<char>)
    ensures
        forall|k: int| 0 <= k < words(s).len() ==> solid(#[trigger] words(s)[k]),
{
    lemma_words_are_solid(s, Seq::empty());
}

/// Splitting what was joined by single spaces gives the same words.
pub proof fn splitting_undoes_joining(list: Seq<Seq<char>>)
    requires
        forall|k: int| 0 <= k < list.len() ==> solid(#[trigger] list[k]),
    ensures
        words(joined(list, seq![' '])) == list,
    decreases list.len(),
{
    if list.len() == 0 {
        assert(list =~= Seq::empty());
    } else if list.len() == 1 {
        assert(solid(list[0]));
        lemma_one_word(list[0], Seq::empty());
        assert(Seq::<char>::empty() + list[0] =~= list[0]);
        assert(list =~= seq![list[0]]);
    } else {
        let shorter = list.drop_last();
        assert forall|k: int| 0 <= k < shorter.len() implies solid(#[trigger] shorter[k]) by {
            assert(shorter[k] == list[k]);
        }
        splitting_undoes_joining(shorter);
        assert(solid(list[list.len() - 1]));
        lemma_words_append(joined(shorter, seq![' ']), list.last(), Seq::empty());
        assert(shorter.push(list.last()) =~= list);
    }
}

/// Whether every character of a text satisfies `p`.
pub open spec fn all_chars(s: Seq<char>, p: spec_fn(char) -> bool) -> bool {
    forall|i: int| 0 <= i < s.len() ==> p(#[trigger] s[i])
}

proof fn lemma_words_keep_chars(s: Seq<char>, word: Seq<char>, p: spec_fn(char) -> bool)
    requires
        all_chars(s, p),
        all_chars(word, p),
    ensures
        forall|k: int|
            0 <= k < words_from(s, word).len() ==> all_chars(#[trigger] words_from(s, word)[k], p),
    decreases s.len(),
{
    if s.len() > 0 {
        let rest = s.drop_first();
        assert(p(s[0]));
        assert forall|i: int| 0 <= i < rest.len() implies p(#[trigger] rest[i]) by {
            assert(rest[i] == s[i + 1]);
        }
        let all = words_from(s, word);
        if is_white_space(s[0]) {
            lemma_words_keep_chars(rest, Seq::empty(), p);
            let others = words_from(rest, Seq::empty());
            if word.len() == 0 {
                assert(word =~= Seq::empty());
                assert(all == others);
            } else {
                assert forall|k: int| 0 <= k < all.len() implies all_chars(#[trigger] all[k], p) by {
                    if k > 0 {
                        assert(all[k] == others[k - 1]);
                    }
                }
            }
        } else {
            lemma_words_keep_chars(rest, word.push(s[0]), p);
            assert(all == words_from(rest, word.push(s[0])));
        }
    }
}

/// What holds of every character of a text holds of every character of its
/// words.
pub proof fn words_keep_chars(s: Seq<char>, p: spec_fn(char) -> bool)
    requires
        all_chars(s, p),
    ensures
        forall|k: int| 0 <= k < words(s).len() ==> all_chars(#[trigger] words(s)[k], p),
{
    lemma_words_keep_chars(s, Seq::empty(), p);
}

/// What holds of every character of the parts and of the separator holds of
/// every character of the joined text.
pub proof fn joining_keeps_chars(
    parts: Seq<Seq<char>>,
    separator: Seq<char>,
    p: spec_fn(char) -> bool,
)
    requires
        forall|k: int| 0 <= k < parts.len() ==> all_chars(#[trigger] parts[k], p),
        all_chars(separator, p),
    ensures
        all_chars(joined(parts, separator), p),
    decreases parts.len(),
{
    if parts.len() > 1 {
        let fewer = parts.drop_last();
        assert forall|k: int| 0 <= k < fewer.len() implies all_chars(#[trigger] fewer[k], p) by {
            assert(fewer[k] == parts[k]);
        }
        joining_keeps_chars(fewer, separator, p);
        assert(all_chars(parts.last(), p));
    } else if parts.len() == 1 {
        assert(all_chars(parts[0], p));
    }
}

/// Decimal digits.
pub open spec fn digit(n: nat) -> char {
    ((n % 10) as u8 + 48u8) as char
}

/// A number in decimal, without leading zeroes.
pub open spec fn decimal(n: nat) -> Seq<char>
    decreases n,
{
    if n < 10 {
        seq![digit(n)]
    } else {
        decimal(n / 10).push(digit(n % 10))
    }
}

pub fn decimal_wide(n: u128) -> (text: String)
    ensures
        text@ == decimal(n as nat),
    decreases n,
{
    let d: u8 = (n % 10) as u8;
    let c: char = (d + 48) as char;
    if n < 10 {
        let mut text = String::new();
        text.push(c);
        assert(text@ =~= seq![digit(n as nat)]);
        text
    } else {
        let mut text = decimal_wide(n / 10);
        text.push(c);
        text
    }
}

pub fn decimal_text(n: u64) -> (text: String)
    ensures
        text@ == decimal(n as nat),
{
    decimal_wide(n as u128)
}

/// The predicate behind [`flat`].
pub open spec fn flat_char(c: char) -> char {
    if c == '\n' {
        ' '
    } else {
        c
    }
}

/// A text on one line: every line feed replaced by a space.
pub open spec fn flat(s: Seq<char>) -> Seq<char> {
    s.map_values(|c: char| flat_char(c))
}

pub fn flatten(text: &str) -> (line: String)
    ensures
        line@ == flat(text@),
{
    let mut line = String::new();
    for c in it: text.chars()
        invariant
            it.seq() == text@,
            line@ == flat(text@.take(it.index() as int)),
    {
        if c == '\n' {
            line.push(' ');
        } else {
            line.push(c);
        }
        assert(text@.take(it.index() as int + 1) =~= text@.take(it.index() as int).push(c));
        assert(flat(text@.take(it.index() as int + 1)) =~= flat(
            text@.take(it.index() as int),
        ).push(flat_char(c)));
    }
    assert(text@.take(text@.len() as int) =~= text@);
    line
}

/// A flattened text has no line feed left.
pub proof fn flat_texts_have_one_line(s: Seq<char>)
    ensures
        forall|i: int| 0 <= i < flat(s).len() ==> #[trigger] flat(s)[i] != '\n',
        flat(s).len() == s.len(),
        flat(flat(s)) == flat(s),
{
    assert(flat(flat(s)) =~= flat(s));
}

/// The length of a text in bytes.
pub open spec fn byte_len(s: Seq<char>) -> nat {
    vstd::utf8::encode_utf8(s).len()
}

/// Bytes add up.
pub proof fn byte_lengths_add(a: Seq<char>, b: Seq<char>)
    ensures
        byte_len(a + b) == byte_len(a) + byte_len(b),
    decreases a.len(),
{
    if a.len() == 0 {
        assert(a + b =~= b);
    } else {
        byte_lengths_add(a.drop_first(), b);
        assert((a + b)[0] == a[0]);
        assert((a + b).drop_first() =~= a.drop_first() + b);
    }
}

pub fn bytes_in(text: &str) -> (length: usize)
    ensures
        length == byte_len(text@),
{
    text.as_bytes().len()
}

/// The first `limit` characters of a text.
pub open spec fn head(s: Seq<char>, limit: nat) -> Seq<char> {
    if s.len() <= limit {
        s
    } else {
        s.take(limit as int)
    }
}

pub fn take_chars(text: &str, limit: usize) -> (taken: String)
    ensures
        taken@ == head(text@, limit as nat),
{
    let length: usize = text.unicode_len();
    if length <= limit {
        text.to_owned()
    } else {
        text.substring_char(0, limit).to_owned()
    }
}

/// Whether `s` begins with `prefix`.
pub open spec fn has_prefix(s: Seq<char>, prefix: Seq<char>) -> bool {
    prefix.len() <= s.len() && s.take(prefix.len() as int) == prefix
}

/// Whether `s` ends with `suffix`.
pub open spec fn has_suffix(s: Seq<char>, suffix: Seq<char>) -> bool {
    suffix.len() <= s.len() && s.skip(s.len() - suffix.len()) == suffix
}

/// `text` without `prefix`, where it begins with it.
pub fn strip_prefix(text: &str, prefix: &str) -> (rest: Option<String>)
    ensures
        match rest {
            Some(r) => has_prefix(text@, prefix@) && r@ == text@.skip(prefix@.len() as int),
            None => !has_prefix(text@, prefix@),
        },
{
    let whole: usize = text.unicode_len();
    let part: usize = prefix.unicode_len();
    if part > whole {
        return None;
    }
    if same_text(text.substring_char(0, part), prefix) {
        Some(text.substring_char(part, whole).to_owned())
    } else {
        None
    }
}

/// `s` without `prefix` at its beginning, as often as it is there.
pub open spec fn drop_prefixes(s: Seq<char>, prefix: Seq<char>) -> Seq<char>
    decreases s.len(),
{
    if prefix.len() > 0 && has_prefix(s, prefix) {
        drop_prefixes(s.skip(prefix.len() as int), prefix)
    } else {
        s
    }
}

/// `text` without `prefix` at its beginning, as often as it is there.
pub fn trim_prefixes(text: &str, prefix: &str) -> (rest: String)
    ensures
        rest@ == drop_prefixes(text@, prefix@),
{
    let mut rest = text.to_owned();
    if prefix.is_empty() {
        return rest;
    }
    loop
        invariant
            prefix@.len() > 0,
            drop_prefixes(rest@, prefix@) == drop_prefixes(text@, prefix@),
        ensures
            rest@ == drop_prefixes(text@, prefix@),
        decreases rest@.len(),
    {
        match strip_prefix(rest.as_str(), prefix) {
            Some(shorter) => rest = shorter,
            None => break,
        }
    }
    rest
}

/// `text` without `suffix`, where it ends with it.
pub fn strip_suffix(text: &str, suffix: &str) -> (rest: Option<String>)
    ensures
        match rest {
            Some(r) => has_suffix(text@, suffix@) && r@ == text@.take(
                text@.len() - suffix@.len(),
            ),
            None => !has_suffix(text@, suffix@),
        },
{
    let whole: usize = text.unicode_len();
    let part: usize = suffix.unicode_len();
    if part > whole {
        return None;
    }
    if same_text(text.substring_char(whole - part, whole), suffix) {
        Some(text.substring_char(0, whole - part).to_owned())
    } else {
        None
    }
}

/// Order by code points, a proper prefix first.
pub open spec fn text_before(a: Seq<char>, b: Seq<char>) -> bool
    decreases a.len(),
{
    if b.len() == 0 {
        false
    } else if a.len() == 0 {
        true
    } else if a[0] == b[0] {
        text_before(a.drop_first(), b.drop_first())
    } else {
        a[0] < b[0]
    }
}

/// No text comes before itself, nor do two come before each other.
pub proof fn text_order_is_strict(a: Seq<char>, b: Seq<char>)
    ensures
        text_before(a, b) ==> a != b && !text_before(b, a),
        !text_before(a, a),
    decreases a.len(),
{
    if a.len() > 0 {
        text_order_is_strict(a.drop_first(), a.drop_first());
    }
    if a.len() > 0 && b.len() > 0 && a[0] == b[0] {
        text_order_is_strict(a.drop_first(), b.drop_first());
    }
}

/// Of two different texts one comes first.
pub proof fn text_order_is_total(a: Seq<char>, b: Seq<char>)
    ensures
        text_before(a, b) || text_before(b, a) || a == b,
        text_before(a, b) ==> !text_before(b, a) && a != b,
    decreases a.len(),
{
    text_order_is_strict(a, b);
    if a.len() > 0 && b.len() > 0 && a[0] == b[0] {
        text_order_is_total(a.drop_first(), b.drop_first());
        if a.drop_first() == b.drop_first() {
            assert(a =~= seq![a[0]] + a.drop_first());
            assert(b =~= seq![b[0]] + b.drop_first());
        }
    } else if a.len() == 0 && b.len() == 0 {
        assert(a =~= b);
    }
}

/// The order of texts is transitive.
pub proof fn text_order_is_transitive(a: Seq<char>, b: Seq<char>, c: Seq<char>)
    requires
        text_before(a, b),
        text_before(b, c),
    ensures
        text_before(a, c),
    decreases a.len(),
{
    if a.len() > 0 && a[0] == b[0] && b[0] == c[0] {
        text_order_is_transitive(a.drop_first(), b.drop_first(), c.drop_first());
    }
}

pub fn comes_before(a: &str, b: &str) -> (before: bool)
    ensures
        before == text_before(a@, b@),
{
    let left = chars_of(a);
    let right = chars_of(b);
    let mut i: usize = 0;
    assert(left@.skip(0) =~= left@);
    assert(right@.skip(0) =~= right@);
    while i < left.len() && i < right.len() && left[i] == right[i]
        invariant
            0 <= i <= left@.len(),
            i <= right@.len(),
            left@ == a@,
            right@ == b@,
            text_before(a@, b@) == text_before(left@.skip(i as int), right@.skip(i as int)),
        decreases left@.len() - i,
    {
        assert(left@.skip(i as int).drop_first() =~= left@.skip(i + 1));
        assert(right@.skip(i as int).drop_first() =~= right@.skip(i + 1));
        i += 1;
    }
    if i >= right.len() {
        false
    } else if i >= left.len() {
        true
    } else {
        left[i] < right[i]
    }
}

/// Whether a text has another as a part, in one piece.
#[verifier::opaque]
pub open spec fn has_part(s: Seq<char>, part: Seq<char>) -> bool {
    exists|i: int|
        0 <= i && i + part.len() <= s.len() && #[trigger] s.subrange(i, i + part.len()) == part
}

/// A text has every part that stands between two others in it.
pub proof fn parts_are_had(before: Seq<char>, part: Seq<char>, after: Seq<char>)
    ensures
        has_part(before + part + after, part),
{
    reveal(has_part);
    let whole = before + part + after;
    let i = before.len() as int;
    assert(whole.subrange(i, i + part.len()) =~= part);
}

/// What is a part of a part is a part of the whole.
pub proof fn parts_of_parts_are_had(
    before: Seq<char>,
    middle: Seq<char>,
    after: Seq<char>,
    part: Seq<char>,
)
    requires
        has_part(middle, part),
    ensures
        has_part(before + middle + after, part),
{
    reveal(has_part);
    let whole = before + middle + after;
    let i = choose|i: int|
        0 <= i && i + part.len() <= middle.len() && #[trigger] middle.subrange(i, i + part.len())
            == part;
    let j = before.len() + i;
    assert(whole.subrange(j, j + part.len()) =~= part);
}

/// Flattening turns a line feed into a space and keeps every other character
/// where it stands.
pub proof fn flattening_touches_line_feeds_alone(s: Seq<char>, i: int)
    requires
        0 <= i < s.len(),
    ensures
        flat(s).len() == s.len(),
        s[i] == '\n' ==> flat(s)[i] == ' ',
        s[i] != '\n' ==> flat(s)[i] == s[i],
{
}

/// Trimming takes white space off both ends and nothing else: what is left is
/// the piece between the first and the last character that is not white space.
pub proof fn trimming_takes_the_ends_alone(s: Seq<char>)
    ensures
        exists|from: int, to: int|
            #![trigger s.subrange(from, to)]
            0 <= from <= to <= s.len() && trimmed(s) == s.subrange(from, to) && (forall|i: int|
                0 <= i < from || to <= i < s.len() ==> is_white_space(#[trigger] s[i])) && (from < to
                ==> !is_white_space(s[from]) && !is_white_space(s[to - 1])),
{
    lemma_start_dropped(s);
    let rest = drop_start_while(s, white());
    let from = s.len() - rest.len();
    lemma_end_dropped(rest);
    let to = from + trimmed(s).len();
    trimmed_has_no_white_ends(s);
    let kept = trimmed(s);
    assert(kept =~= s.subrange(from, to));
    assert forall|i: int| 0 <= i < from || to <= i < s.len() implies is_white_space(
        #[trigger] s[i],
    ) by {
        if i >= from {
            assert(rest[i - from] == s[i]);
        }
    }
    if from < to {
        assert(kept[0] == s[from]);
        assert(kept.last() == s[to - 1]);
    }
}

proof fn lemma_start_dropped(s: Seq<char>)
    ensures
        ({
            let rest = drop_start_while(s, white());
            let from = s.len() - rest.len();
            &&& 0 <= from
            &&& rest == s.skip(from)
            &&& forall|i: int| 0 <= i < from ==> is_white_space(#[trigger] s[i])
        }),
    decreases s.len(),
{
    if s.len() > 0 && white()(s[0]) {
        let shorter = s.drop_first();
        lemma_start_dropped(shorter);
        let rest = drop_start_while(s, white());
        let from = s.len() - rest.len();
        assert(rest =~= s.skip(from));
        assert forall|i: int| 0 <= i < from implies is_white_space(#[trigger] s[i]) by {
            if i > 0 {
                assert(shorter[i - 1] == s[i]);
            }
        }
    } else {
        assert(s.skip(0) =~= s);
    }
}

proof fn lemma_end_dropped(s: Seq<char>)
    ensures
        ({
            let kept = drop_end_while(s, white());
            &&& kept.len() <= s.len()
            &&& kept == s.take(kept.len() as int)
            &&& forall|i: int| kept.len() <= i < s.len() ==> is_white_space(#[trigger] s[i])
        }),
    decreases s.len(),
{
    lemma_drop_end_while_fixed(s, white());
    if s.len() > 0 && white()(s.last()) {
        let shorter = s.drop_last();
        lemma_end_dropped(shorter);
        let kept = drop_end_while(s, white());
        assert forall|i: int| kept.len() <= i < s.len() implies is_white_space(#[trigger] s[i]) by {
            if i < shorter.len() {
                assert(shorter[i] == s[i]);
            }
        }
    }
}

/// Folding keeps the characters of the trimmed text, the capitals of ASCII in
/// their small form.
pub proof fn folding_touches_capitals_alone(s: Seq<char>, i: int)
    requires
        0 <= i < trimmed(s).len(),
    ensures
        folded(s).len() == trimmed(s).len(),
        'A' <= trimmed(s)[i] <= 'Z' ==> folded(s)[i] as u32 == trimmed(s)[i] as u32 + 32,
        !('A' <= trimmed(s)[i] <= 'Z') ==> folded(s)[i] == trimmed(s)[i],
{
}

/// Joining puts the separator between neighbours, and nowhere else: nothing
/// joined is nothing, one part joined is that part, and two lists joined one
/// behind the other are what each is joined, with a separator between them.
pub proof fn joining_puts_one_separator_between(
    a: Seq<Seq<char>>,
    b: Seq<Seq<char>>,
    part: Seq<char>,
    separator: Seq<char>,
)
    ensures
        joined(Seq::empty(), separator) == Seq::<char>::empty(),
        joined(seq![part], separator) == part,
        a.len() > 0 && b.len() > 0 ==> joined(a + b, separator) == joined(a, separator) + separator
            + joined(b, separator),
    decreases b.len(),
{
    if a.len() > 0 && b.len() > 0 {
        let all = a + b;
        assert(all.drop_last() =~= a + b.drop_last());
        assert(all.last() == b.last());
        if b.len() == 1 {
            assert(all.drop_last() =~= a);
            assert(b.last() == b[0]);
        } else {
            joining_puts_one_separator_between(a, b.drop_last(), part, separator);
            assert(joined(all, separator) =~= joined(a, separator) + separator + joined(
                b,
                separator,
            ));
        }
    }
}

/// White space ends a word: the words of a text are those before it and those
/// behind it, a text without any is one word, and an empty text has none.
pub proof fn words_are_split_at_white_space(a: Seq<char>, c: char, b: Seq<char>, w: Seq<char>)
    requires
        is_white_space(c),
        solid(w),
    ensures
        words(a + seq![c] + b) == words(a) + words(b),
        words(w) == seq![w],
        words(Seq::empty()) == Seq::<Seq<char>>::empty(),
{
    lemma_words_split(a, c, b, Seq::empty());
    lemma_one_word(w, Seq::empty());
    assert(Seq::<char>::empty() + w =~= w);
}

proof fn lemma_words_split(a: Seq<char>, c: char, b: Seq<char>, word: Seq<char>)
    requires
        is_white_space(c),
    ensures
        words_from(a + seq![c] + b, word) == words_from(a, word) + words_from(b, Seq::empty()),
    decreases a.len(),
{
    let whole = a + seq![c] + b;
    if a.len() == 0 {
        assert(whole[0] == c);
        assert(whole.drop_first() =~= b);
        if word.len() == 0 {
            assert(word =~= Seq::empty());
            assert(words_from(a, word) =~= Seq::empty());
        }
        assert(words_from(whole, word) =~= words_from(a, word) + words_from(b, Seq::empty()));
    } else {
        let rest = a.drop_first();
        assert(whole[0] == a[0]);
        assert(whole.drop_first() =~= rest + seq![c] + b);
        if is_white_space(a[0]) {
            if word.len() == 0 {
                lemma_words_split(rest, c, b, word);
            } else {
                lemma_words_split(rest, c, b, Seq::empty());
            }
        } else {
            lemma_words_split(rest, c, b, word.push(a[0]));
        }
        assert(words_from(whole, word) =~= words_from(a, word) + words_from(b, Seq::empty()));
    }
}

/// The number that decimal digits stand for.
pub open spec fn number_of(digits: Seq<char>) -> int
    decreases digits.len(),
{
    if digits.len() == 0 {
        0
    } else {
        10 * number_of(digits.drop_last()) + (digits.last() as int - '0' as int)
    }
}

/// A number in decimal reads back as the number, in digits alone, without a
/// leading zero.
pub proof fn decimals_read_back(n: nat)
    ensures
        number_of(decimal(n)) == n,
        decimal(n).len() > 0,
        forall|i: int| 0 <= i < decimal(n).len() ==> '0' <= #[trigger] decimal(n)[i] <= '9',
        n >= 10 ==> decimal(n)[0] != '0',
        n > 0 ==> decimal(n)[0] != '0',
        n < 10 ==> decimal(n).len() == 1,
    decreases n,
{
    let d = decimal(n);
    if n < 10 {
        assert(d.drop_last() =~= Seq::empty());
        assert(number_of(d.drop_last()) == 0);
    } else {
        decimals_read_back(n / 10);
        assert(d.drop_last() =~= decimal(n / 10));
        assert(d[0] == decimal(n / 10)[0]);
        assert forall|i: int| 0 <= i < d.len() implies '0' <= #[trigger] d[i] <= '9' by {
            if i < d.len() - 1 {
                assert(d[i] == decimal(n / 10)[i]);
            }
        }
    }
}

/// Texts are ordered by the first character in which they differ, and a text
/// stands before whatever goes on from it.
pub proof fn texts_are_ordered_by_their_first_difference(
    common: Seq<char>,
    c: char,
    a: Seq<char>,
    d: char,
    b: Seq<char>,
)
    requires
        c < d,
    ensures
        text_before(common + seq![c] + a, common + seq![d] + b),
        text_before(common, common + seq![d] + b),
    decreases common.len(),
{
    let x = common + seq![c] + a;
    let y = common + seq![d] + b;
    if common.len() == 0 {
        assert(x[0] == c && y[0] == d);
    } else {
        let rest = common.drop_first();
        texts_are_ordered_by_their_first_difference(rest, c, a, d, b);
        assert(x.drop_first() =~= rest + seq![c] + a);
        assert(y.drop_first() =~= rest + seq![d] + b);
        assert(x[0] == common[0] && y[0] == common[0]);
    }
}

/// The beginning of a text is as much of it as the limit allows.
pub proof fn heads_are_beginnings(s: Seq<char>, limit: nat)
    ensures
        head(s, limit).is_prefix_of(s),
        head(s, limit).len() <= limit,
        head(s, limit).len() == limit || head(s, limit) == s,
{
}

/// A text has the parts of its parts.
pub proof fn having_parts_is_transitive(s: Seq<char>, middle: Seq<char>, part: Seq<char>)
    requires
        has_part(s, middle),
        has_part(middle, part),
    ensures
        has_part(s, part),
{
    reveal(has_part);
    let at = choose|at: int|
        0 <= at && at + middle.len() <= s.len() && #[trigger] s.subrange(at, at + middle.len())
            == middle;
    let (before, after) = (s.take(at), s.skip(at + middle.len()));
    parts_of_parts_are_had(before, middle, after, part);
    assert(before + middle + after =~= s);
}

/// A text put together of parts has each of them.
pub proof fn each_part_is_had(parts: Seq<Seq<char>>, i: int)
    requires
        0 <= i < parts.len(),
    ensures
        has_part(parts.flatten(), parts[i]),
    decreases parts.len(),
{
    let rest = parts.drop_first().flatten();
    let nothing = Seq::<char>::empty();
    if i == 0 {
        parts_are_had(nothing, parts[0], rest);
        assert(nothing + parts[0] + rest =~= parts.flatten());
    } else {
        each_part_is_had(parts.drop_first(), i - 1);
        parts_of_parts_are_had(parts[0], rest, nothing, parts[i]);
        assert(parts[0] + rest + nothing =~= parts.flatten());
    }
}

/// A text with a line more has that line, and every part that it had.
pub proof fn a_line_more(before: Seq<char>, line: Seq<char>, end: Seq<char>, part: Seq<char>)
    ensures
        has_part(before + line + end, line + end),
        has_part(before, part) ==> has_part(before + line + end, part),
{
    let nothing = Seq::<char>::empty();
    parts_are_had(before, line + end, nothing);
    assert(before + (line + end) + nothing =~= before + line + end);
    if has_part(before, part) {
        parts_of_parts_are_had(nothing, before, line + end, part);
        assert(nothing + before + (line + end) =~= before + line + end);
    }
}

} // verus!
