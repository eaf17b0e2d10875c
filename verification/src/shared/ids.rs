//! Identifiers: UUIDs held as numbers, written as text.
use crate::text::text_before;
use vstd::prelude::*;

verus! {

/// A lower-case hexadecimal digit.
pub open spec fn hex_digit(n: nat) -> char {
    if n % 16 < 10 {
        ((n % 16) as u8 + 48u8) as char
    } else {
        ((n % 16) as u8 + 87u8) as char
    }
}

/// The last `width` hexadecimal digits of a number, most significant first.
pub open spec fn hex(value: nat, width: nat) -> Seq<char>
    decreases width,
{
    if width == 0 {
        Seq::empty()
    } else {
        hex(value / 16, (width - 1) as nat).push(hex_digit(value % 16))
    }
}

/// A UUID as text: thirty-two digits in groups of 8, 4, 4, 4 and 12.
pub open spec fn uuid_text(value: u128) -> Seq<char> {
    let digits = hex(value as nat, 32);
    digits.subrange(0, 8) + seq!['-'] + (digits.subrange(8, 12) + seq!['-'] + (digits.subrange(
        12,
        16,
    ) + seq!['-'] + (digits.subrange(16, 20) + seq!['-'] + digits.subrange(20, 32))))
}

/// What `uuid::Uuid::parse_str` makes of a text: the number that it denotes, or
/// the sentence that says why it is refused.
pub uninterp spec fn uuid_read(raw: Seq<char>) -> core::result::Result<u128, Seq<char>>;

/// The UUID that a text denotes, if any.
pub open spec fn uuid_of_text(raw: Seq<char>) -> Option<u128> {
    match uuid_read(raw) {
        Ok(value) => Some(value),
        Err(_) => None,
    }
}

/// What is said of a text that is no UUID.
pub open spec fn uuid_complaint(raw: Seq<char>) -> Seq<char> {
    match uuid_read(raw) {
        Ok(_) => Seq::empty(),
        Err(sentence) => sentence,
    }
}

/// `uuid::Uuid::parse_str`: the number that the text denotes, or the
/// sentence of its error. What texts it accepts is left to the name.
#[verifier::external_body]
fn parse_uuid(raw: &str) -> (parsed: core::result::Result<u128, String>)
    ensures
        match parsed {
            Ok(value) => uuid_read(raw@) matches Ok(number) && number == value,
            Err(sentence) => uuid_read(raw@) matches Err(reason) && reason == sentence@,
        },
{
    match uuid::Uuid::parse_str(raw) {
        Ok(parsed) => Ok(parsed.as_u128()),
        Err(error) => Err(error.to_string()),
    }
}

/// `Display` of `uuid::Uuid`: the hyphenated lower-case form, which
/// `uuid::Uuid::parse_str` reads back as the same number.
#[verifier::external_body]
fn render_uuid(value: u128) -> (text: String)
    ensures
        text@ == uuid_text(value),
        uuid_of_text(text@) == Some(value),
{
    uuid::Uuid::from_u128(value).to_string()
}

/// Whether a UUID is of version 7: the four bits below the 48 of the time hold
/// the version, and the lower half begins with the two bits of the variant.
pub open spec fn is_version_7(value: u128) -> bool {
    &&& (value / 0x1000_0000_0000_0000_0000) % 16 == 7
    &&& (value / 0x4000_0000_0000_0000) % 4 == 2
}

/// `uuid::Uuid::now_v7`: a number of version 7. Its other bits are made of the
/// time, a counter and chance, and nothing is said of them, nor of how two
/// numbers relate.
#[verifier::external_body]
fn fresh_uuid() -> (value: u128)
    ensures
        is_version_7(value),
{
    uuid::Uuid::now_v7().as_u128()
}

/// Identifies a memory.
#[derive(Debug, Clone, Copy, PartialEq, Eq, Hash, Structural)]
pub struct MemoryId {
    pub value: u128,
}

/// Identifies the user that a memory belongs to.
#[derive(Debug, Clone, Copy, PartialEq, Eq, Hash, Structural)]
pub struct UserId {
    pub value: u128,
}

impl MemoryId {
    pub open spec fn text(self) -> Seq<char> {
        uuid_text(self.value)
    }

    /// A new identifier, of version 7. That no memory has it yet rests on
    /// time and chance.
    pub fn new() -> (id: MemoryId)
        ensures
            is_version_7(id.value),
    {
        MemoryId { value: fresh_uuid() }
    }

    pub fn parse(raw: &str) -> (id: core::result::Result<MemoryId, String>)
        ensures
            match id {
                Ok(found) => uuid_of_text(raw@) == Some(found.value),
                Err(sentence) => uuid_of_text(raw@) is None && sentence@ == uuid_complaint(raw@),
            },
    {
        match parse_uuid(raw) {
            Ok(value) => Ok(MemoryId { value }),
            Err(sentence) => Err(sentence),
        }
    }

    /// The identifier as text, which [`MemoryId::parse`] reads back.
    pub fn to_text(&self) -> (text: String)
        ensures
            text@ == self.text(),
            uuid_of_text(text@) == Some(self.value),
    {
        render_uuid(self.value)
    }
}

impl UserId {
    pub open spec fn text(self) -> Seq<char> {
        uuid_text(self.value)
    }

    /// A new identifier, of version 7. That no user has it yet rests on time
    /// and chance.
    pub fn new() -> (id: UserId)
        ensures
            is_version_7(id.value),
    {
        UserId { value: fresh_uuid() }
    }

    pub fn parse(raw: &str) -> (id: core::result::Result<UserId, String>)
        ensures
            match id {
                Ok(found) => uuid_of_text(raw@) == Some(found.value),
                Err(sentence) => uuid_of_text(raw@) is None && sentence@ == uuid_complaint(raw@),
            },
    {
        match parse_uuid(raw) {
            Ok(value) => Ok(UserId { value }),
            Err(sentence) => Err(sentence),
        }
    }

    /// The identifier as text, which [`UserId::parse`] reads back.
    pub fn to_text(&self) -> (text: String)
        ensures
            text@ == self.text(),
            uuid_of_text(text@) == Some(self.value),
    {
        render_uuid(self.value)
    }
}

/// Whether a list of identifiers holds one.
pub fn holds_id(ids: &Vec<MemoryId>, id: MemoryId) -> (held: bool)
    ensures
        held == ids@.contains(id),
{
    let mut i: usize = 0;
    while i < ids.len()
        invariant
            0 <= i <= ids@.len(),
            forall|j: int| 0 <= j < i ==> #[trigger] ids@[j] != id,
        decreases ids@.len() - i,
    {
        if ids[i] == id {
            return true;
        }
        i += 1;
    }
    false
}

proof fn lemma_hex_len(value: nat, width: nat)
    ensures
        hex(value, width).len() == width,
    decreases width,
{
    if width > 0 {
        lemma_hex_len(value / 16, (width - 1) as nat);
    }
}

proof fn lemma_before_push(a: Seq<char>, b: Seq<char>, x: char, y: char)
    requires
        a.len() == b.len(),
    ensures
        text_before(a.push(x), b.push(y)) == (text_before(a, b) || (a == b && x < y)),
    decreases a.len(),
{
    if a.len() == 0 {
        assert(a =~= b);
        assert(a.push(x)[0] == x && b.push(y)[0] == y);
        assert(a.push(x).drop_first() =~= Seq::empty());
        assert(b.push(y).drop_first() =~= Seq::empty());
        assert(!text_before(a, b));
        assert(!text_before(a.push(x).drop_first(), b.push(y).drop_first()));
    } else {
        assert(a.push(x).drop_first() =~= a.drop_first().push(x));
        assert(b.push(y).drop_first() =~= b.drop_first().push(y));
        lemma_before_push(a.drop_first(), b.drop_first(), x, y);
        if a[0] == b[0] && a.drop_first() == b.drop_first() {
            assert(a =~= seq![a[0]] + a.drop_first());
            assert(b =~= seq![b[0]] + b.drop_first());
        }
    }
}

proof fn lemma_before_concat(a: Seq<char>, b: Seq<char>, x: Seq<char>, y: Seq<char>)
    requires
        a.len() == b.len(),
    ensures
        text_before(a + x, b + y) == (text_before(a, b) || (a == b && text_before(x, y))),
    decreases a.len(),
{
    if a.len() == 0 {
        assert(a =~= b);
        assert(a + x =~= x);
        assert(b + y =~= y);
    } else {
        assert((a + x).drop_first() =~= a.drop_first() + x);
        assert((b + y).drop_first() =~= b.drop_first() + y);
        lemma_before_concat(a.drop_first(), b.drop_first(), x, y);
        if a[0] == b[0] && a.drop_first() == b.drop_first() {
            assert(a =~= seq![a[0]] + a.drop_first());
            assert(b =~= seq![b[0]] + b.drop_first());
        }
    }
}

proof fn lemma_before_irreflexive(a: Seq<char>)
    ensures
        !text_before(a, a),
    decreases a.len(),
{
    if a.len() > 0 {
        lemma_before_irreflexive(a.drop_first());
    }
}

spec fn power16(n: nat) -> nat
    decreases n,
{
    if n == 0 {
        1
    } else {
        16 * power16((n - 1) as nat)
    }
}

proof fn lemma_hex_order(a: nat, b: nat, width: nat)
    requires
        a < b < power16(width),
    ensures
        text_before(hex(a, width), hex(b, width)),
    decreases width,
{
    if width > 0 {
        let shorter = (width - 1) as nat;
        lemma_hex_len(a / 16, shorter);
        lemma_hex_len(b / 16, shorter);
        lemma_before_push(
            hex(a / 16, shorter),
            hex(b / 16, shorter),
            hex_digit(a % 16),
            hex_digit(b % 16),
        );
        if a / 16 < b / 16 {
            lemma_hex_order(a / 16, b / 16, shorter);
        } else {
            assert(a / 16 == b / 16);
            assert(a % 16 < b % 16);
        }
    }
}

/// Splits the comparison of two texts of equal length at a hyphen that
/// stands at the same place in both.
proof fn lemma_before_hyphen(a: Seq<char>, b: Seq<char>, x: Seq<char>, y: Seq<char>)
    requires
        a.len() == b.len(),
    ensures
        text_before(a + seq!['-'] + x, b + seq!['-'] + y) == text_before(a + x, b + y),
{
    lemma_before_concat(a, b, x, y);
    assert(a + seq!['-'] + x =~= a + (seq!['-'] + x));
    assert(b + seq!['-'] + y =~= b + (seq!['-'] + y));
    lemma_before_concat(a, b, seq!['-'] + x, seq!['-'] + y);
    lemma_before_concat(seq!['-'], seq!['-'], x, y);
    lemma_before_irreflexive(seq!['-']);
}

/// Comparing two identifiers as numbers orders them as comparing their
/// texts does.
pub proof fn id_texts_order_as_numbers(a: MemoryId, b: MemoryId)
    ensures
        text_before(a.text(), b.text()) <==> a.value < b.value,
{
    if a.value < b.value {
        lemma_id_order(a.value, b.value);
    } else if a.value == b.value {
        lemma_before_irreflexive(a.text());
    } else {
        lemma_id_order(b.value, a.value);
        lemma_before_asymmetric(b.text(), a.text());
    }
}

/// Two users are never written alike: a value bound to a statement, or the
/// name of a directory, tells whose it is.
pub proof fn users_are_written_apart(a: UserId, b: UserId)
    requires
        a != b,
    ensures
        a.text() != b.text(),
{
    if a.value < b.value {
        lemma_id_order(a.value, b.value);
    } else {
        lemma_id_order(b.value, a.value);
    }
    lemma_before_irreflexive(a.text());
}

proof fn lemma_before_asymmetric(a: Seq<char>, b: Seq<char>)
    requires
        text_before(a, b),
    ensures
        !text_before(b, a),
    decreases a.len(),
{
    if a.len() > 0 && a[0] == b[0] {
        lemma_before_asymmetric(a.drop_first(), b.drop_first());
    }
}

proof fn lemma_id_order(a: u128, b: u128)
    requires
        a < b,
    ensures
        text_before(uuid_text(a), uuid_text(b)),
{
    let da = hex(a as nat, 32);
    let db = hex(b as nat, 32);
    lemma_hex_len(a as nat, 32);
    lemma_hex_len(b as nat, 32);
    assert(power16(32) == 0x1_0000_0000_0000_0000_0000_0000_0000_0000) by {
        reveal_with_fuel(power16, 33);
    }
    lemma_hex_order(a as nat, b as nat, 32);
    let (a5, b5) = (da.subrange(20, 32), db.subrange(20, 32));
    let (a4, b4) = (da.subrange(16, 20), db.subrange(16, 20));
    let (a3, b3) = (da.subrange(12, 16), db.subrange(12, 16));
    let (a2, b2) = (da.subrange(8, 12), db.subrange(8, 12));
    let (a1, b1) = (da.subrange(0, 8), db.subrange(0, 8));
    assert(a4 + a5 =~= da.subrange(16, 32));
    assert(b4 + b5 =~= db.subrange(16, 32));
    assert(a3 + (a4 + a5) =~= da.subrange(12, 32));
    assert(b3 + (b4 + b5) =~= db.subrange(12, 32));
    assert(a2 + (a3 + (a4 + a5)) =~= da.subrange(8, 32));
    assert(b2 + (b3 + (b4 + b5)) =~= db.subrange(8, 32));
    assert(a1 + (a2 + (a3 + (a4 + a5))) =~= da);
    assert(b1 + (b2 + (b3 + (b4 + b5))) =~= db);
    let a45 = a4 + seq!['-'] + a5;
    let b45 = b4 + seq!['-'] + b5;
    let a345 = a3 + seq!['-'] + a45;
    let b345 = b3 + seq!['-'] + b45;
    let a2345 = a2 + seq!['-'] + a345;
    let b2345 = b2 + seq!['-'] + b345;
    lemma_before_hyphen(a4, b4, a5, b5);
    lemma_before_concat(a3, b3, a4 + a5, b4 + b5);
    lemma_before_concat(a3, b3, a45, b45);
    lemma_before_hyphen(a3, b3, a45, b45);
    lemma_before_concat(a2, b2, a3 + (a4 + a5), b3 + (b4 + b5));
    lemma_before_concat(a2, b2, a345, b345);
    lemma_before_hyphen(a2, b2, a345, b345);
    lemma_before_concat(a1, b1, a2 + (a3 + (a4 + a5)), b2 + (b3 + (b4 + b5)));
    lemma_before_concat(a1, b1, a2345, b2345);
    lemma_before_hyphen(a1, b1, a2345, b2345);
}

} // verus!
