//! Categories, names, memories and queries.
use recuerdos_ai::memories::domain::category::{default_categories, Category};
use recuerdos_ai::memories::domain::embedder::embed_one;
use recuerdos_ai::memories::domain::entity_graph::normalise_predicate;
use recuerdos_ai::memories::domain::entity_key::{distinct, EntityKey};
use recuerdos_ai::memories::domain::memory::{
    Entity, Memory, MemoryEdit, MemorySource, NewMemory, MAX_CONTENT_LEN, MAX_TAGS, MAX_TAG_LEN,
};
use recuerdos_ai::memories::domain::memory_repository::AuditOperation;
use recuerdos_ai::memories::domain::recall_query::{RecallQuery, MAX_LIMIT, MAX_QUERY_LEN};
use recuerdos_ai::shared::error::RaError;
use recuerdos_ai::shared::ids::{MemoryId, UserId};
use recuerdos_ai::shared::time::{Timestamp, MAX_SECONDS, MIN_SECONDS};
use std::str::FromStr;

fn at(seconds: i64) -> Timestamp {
    Timestamp::new(seconds, 0).unwrap()
}

fn now() -> Timestamp {
    at(1_700_000_000)
}

const HOUR: i64 = 3_600;
const DAY: i64 = 86_400;

// ---- categories ----

#[test]
fn parses_every_built_in_category() {
    for category in default_categories() {
        let parsed = Category::parse(category.as_str()).unwrap();
        assert_eq!(parsed, category);
    }
}

#[test]
fn parsing_is_case_and_whitespace_insensitive() {
    assert_eq!(
        Category::parse("  Preference.Coding  ").unwrap(),
        Category::PreferenceCoding
    );
}

#[test]
fn rejects_an_unknown_category_rather_than_inventing_one() {
    let err = Category::parse("preference.codeing").unwrap_err();
    assert!(matches!(err, RaError::Validation(_)), "got {err:?}");
    assert!(err.message().contains("preference.coding"), "{err:?}");
}

#[test]
fn rejects_an_empty_category() {
    assert!(Category::parse("  ").is_err());
}

#[test]
fn accepts_a_configured_extra() {
    let extras = vec!["fact.homelab".to_string()];
    assert_eq!(
        Category::parse_with_extras("fact.homelab", &extras).unwrap(),
        Category::Custom("fact.homelab".to_string())
    );
}

#[test]
fn an_extra_does_not_shadow_a_built_in() {
    let extras = vec!["decision".to_string()];
    assert_eq!(
        Category::parse_with_extras("decision", &extras).unwrap(),
        Category::Decision,
        "a built-in must not degrade into a Custom"
    );
}

#[test]
fn stored_categories_always_load_even_if_no_longer_configured() {
    let category = Category::from_stored("fact.homelab");
    assert_eq!(category.as_str(), "fact.homelab");
}

#[test]
fn display_round_trips_through_parse() {
    for category in default_categories() {
        let rendered = category.as_str().to_string();
        assert_eq!(Category::parse(&rendered).unwrap(), category);
    }
}

#[test]
fn a_refused_category_names_what_is_accepted() {
    assert_eq!(
        Category::parse("Nope").unwrap_err().message(),
        "unknown category \"nope\" (expected one of preference.coding, preference.personal, \
         decision, fact.project, fact.person, experience, skill, reference)"
    );
    assert_eq!(Category::parse("").unwrap_err().message(), "category is empty");
    assert_eq!(Category::from_str("skill").unwrap(), Category::Skill);
}

// ---- names of things ----

fn key(raw: &str) -> String {
    EntityKey::new(raw).as_str().to_string()
}

#[test]
fn spelling_variants_of_one_name_collapse_to_one_key() {
    let cases = [
        ("Fly.io", "fly.io"),
        ("fly.io", "fly.io"),
        ("  Fly.io  ", "fly.io"),
        ("FLY.IO", "fly.io"),
        ("Fly.io.", "fly.io"),
        ("Fly.io's", "fly.io"),
        ("Fly.io\u{2019}s", "fly.io"),
        ("Meridian  team", "meridian team"),
        ("Meridian team!", "meridian team"),
        ("notifications service,", "notifications service"),
        ("\tHetzner\n", "hetzner"),
        ("Sam's", "sam"),
    ];

    for (raw, expected) in cases {
        assert_eq!(key(raw), expected, "canonicalising {raw:?}");
    }
}

#[test]
fn an_internal_dot_is_kept_but_a_trailing_one_is_not() {
    assert_eq!(key("fly.io"), "fly.io");
    assert_eq!(key("fly.io..."), "fly.io");
}

#[test]
fn names_that_differ_in_letters_stay_separate_the_known_limitation() {
    assert_ne!(key("Fly"), key("Fly.io"));
    assert_ne!(key("flyio"), key("fly.io"));
}

#[test]
fn a_name_that_is_only_punctuation_or_whitespace_is_empty() {
    assert!(EntityKey::new("   ").is_empty());
    assert!(EntityKey::new("...").is_empty());
    assert!(!EntityKey::new("Hetzner").is_empty());
}

#[test]
fn letters_beyond_ascii_are_lowered_too() {
    assert_eq!(key("  ÅNGSTRÖM Lab "), "ångström lab");
}

#[test]
fn repeated_names_are_kept_once() {
    let keys = vec![
        EntityKey::new("Fly.io"),
        EntityKey::new("..."),
        EntityKey::new("fly.io"),
        EntityKey::new("Hetzner"),
    ];
    let names: Vec<String> = distinct(&keys).iter().map(|k| k.as_str().to_string()).collect();
    assert_eq!(names, vec!["fly.io".to_string(), "hetzner".to_string()]);
}

#[test]
fn predicates_are_filed_in_one_form() {
    assert_eq!(normalise_predicate("Deploys On"), "deploys_on");
    assert_eq!(normalise_predicate("  deploys_on  "), "deploys_on");
    assert_eq!(
        normalise_predicate(&normalise_predicate("maintained-by")),
        normalise_predicate("maintained-by")
    );
}

// ---- memories ----

fn new_memory(content: &str) -> NewMemory {
    NewMemory {
        content: content.to_string(),
        category: Category::PreferenceCoding,
        subcategory: None,
        tags: vec![],
        entities: vec![],
        confidence: 0.9f32.to_bits(),
        source: MemorySource::default(),
        expires_at: None,
    }
}

fn create(content: &str) -> Memory {
    Memory::create(UserId::new(), new_memory(content), now()).unwrap()
}

#[test]
fn creates_a_memory() {
    let memory = create("  User prefers pnpm  ");

    assert_eq!(memory.content(), "User prefers pnpm", "content is trimmed");
    assert_eq!(memory.category(), &Category::PreferenceCoding);
    assert_eq!(memory.created_at(), now());
    assert_eq!(memory.updated_at(), now());
    assert_eq!(memory.last_accessed_at(), None);
    assert!(!memory.is_superseded());
    assert!(memory.is_active_at(now()));
}

#[test]
fn rejects_empty_or_whitespace_content() {
    for content in ["", "   ", "\n\t "] {
        assert!(
            Memory::create(UserId::new(), new_memory(content), now()).is_err(),
            "{content:?} should be rejected"
        );
    }
}

#[test]
fn rejects_overlong_content() {
    let content = "a".repeat(MAX_CONTENT_LEN + 1);
    assert!(Memory::create(UserId::new(), new_memory(&content), now()).is_err());
}

#[test]
fn accepts_content_at_the_limit() {
    let content = "a".repeat(MAX_CONTENT_LEN);
    assert!(Memory::create(UserId::new(), new_memory(&content), now()).is_ok());
}

#[test]
fn normalizes_tags() {
    let mut new = new_memory("x");
    new.tags = vec![
        "  TypeScript ".to_string(),
        "typescript".to_string(),
        "".to_string(),
        "Imports".to_string(),
    ];

    let memory = Memory::create(UserId::new(), new, now()).unwrap();

    assert_eq!(
        memory.tags(),
        &["typescript".to_string(), "imports".to_string()],
        "tags should be lowercased, de-duplicated, blanks dropped, order kept"
    );
}

#[test]
fn rejects_an_overlong_tag() {
    let mut new = new_memory("x");
    new.tags = vec!["a".repeat(MAX_TAG_LEN + 1)];
    assert!(Memory::create(UserId::new(), new, now()).is_err());
}

#[test]
fn rejects_too_many_tags() {
    let mut new = new_memory("x");
    new.tags = (0..=MAX_TAGS).map(|i| format!("tag{i}")).collect();
    assert!(Memory::create(UserId::new(), new, now()).is_err());
}

#[test]
fn clamps_confidence_into_range() {
    for (given, expected) in [(1.5f32, 1.0f32), (-0.2, 0.0), (0.5, 0.5), (f32::NAN, 0.0)] {
        let mut new = new_memory("x");
        new.confidence = given.to_bits();
        let memory = Memory::create(UserId::new(), new, now()).unwrap();
        assert_eq!(
            f32::from_bits(memory.confidence()),
            expected,
            "for input {given}"
        );
    }
}

#[test]
fn rejects_an_expiry_in_the_past() {
    let mut new = new_memory("x");
    new.expires_at = Some(at(1_700_000_000 - 1));
    assert!(Memory::create(UserId::new(), new, now()).is_err());
}

#[test]
fn expiry_hides_a_memory_only_once_it_passes() {
    let mut new = new_memory("x");
    new.expires_at = Some(at(1_700_000_000 + DAY));
    let memory = Memory::create(UserId::new(), new, now()).unwrap();

    assert!(memory.is_active_at(now()));
    assert!(!memory.is_expired_at(now()));
    assert!(memory.is_expired_at(at(1_700_000_000 + 2 * DAY)));
    assert!(!memory.is_active_at(at(1_700_000_000 + 2 * DAY)));
}

#[test]
fn editing_updates_only_the_given_fields() {
    let memory = create("original");
    let later = at(1_700_000_000 + HOUR);

    let edited = memory
        .clone()
        .edit(
            MemoryEdit {
                content: Some("revised".to_string()),
                ..MemoryEdit::default()
            },
            later,
        )
        .unwrap();

    assert_eq!(edited.content(), "revised");
    assert_eq!(edited.category(), memory.category(), "untouched");
    assert_eq!(edited.created_at(), now(), "creation time is immutable");
    assert_eq!(edited.updated_at(), later);
    assert_eq!(edited.id(), memory.id());
}

#[test]
fn editing_can_clear_an_expiry() {
    let mut new = new_memory("x");
    new.expires_at = Some(at(1_700_000_000 + DAY));
    let memory = Memory::create(UserId::new(), new, now()).unwrap();

    let edited = memory
        .edit(
            MemoryEdit {
                expires_at: Some(None),
                ..MemoryEdit::default()
            },
            now(),
        )
        .unwrap();

    assert_eq!(edited.expires_at(), None);
}

#[test]
fn editing_rejects_empty_content() {
    let memory = create("original");
    assert!(memory
        .edit(
            MemoryEdit {
                content: Some("  ".to_string()),
                ..MemoryEdit::default()
            },
            now()
        )
        .is_err());
}

#[test]
fn superseding_retains_the_memory_but_deactivates_it() {
    let memory = create("old fact");
    let replacement = MemoryId::new();

    let superseded = memory.supersede(replacement, now());

    assert!(superseded.is_superseded());
    assert_eq!(superseded.superseded_by(), Some(replacement));
    assert!(!superseded.is_active_at(now()));
    assert_eq!(
        superseded.content(),
        "old fact",
        "content is kept — supersede is not delete"
    );
}

#[test]
fn marking_accessed_records_the_time() {
    let memory = create("x");
    let later = at(1_700_000_000 + 3 * DAY);

    let accessed = memory.mark_accessed(later);

    assert_eq!(accessed.last_accessed_at(), Some(later));
    assert_eq!(accessed.access_count(), 1);
}

#[test]
fn a_refused_memory_says_why() {
    let refused = |new: NewMemory| Memory::create(UserId::new(), new, now()).unwrap_err().message();

    let mut long_tag = new_memory("x");
    long_tag.tags = vec!["T".repeat(65)];
    assert_eq!(
        refused(long_tag),
        format!("tag \"{}\" is longer than 64 characters", "t".repeat(65))
    );
    let mut many = new_memory("x");
    many.tags = (0..33).map(|i| format!("tag{i}")).collect();
    assert_eq!(refused(many), "more than 32 tags");
}

#[test]
fn a_new_memory_keeps_what_it_mentions() {
    let mut new = new_memory("x");
    new.entities = vec![Entity {
        name: "Hetzner".to_string(),
        kind: "service".to_string(),
    }];
    new.subcategory = Some("tooling".to_string());
    let memory = Memory::create(UserId::new(), new, now()).unwrap();
    assert_eq!(memory.entities()[0].name, "Hetzner");
    assert_eq!(memory.subcategory(), Some("tooling"));
    assert_eq!(f32::from_bits(memory.importance()), 1.0);
    assert_eq!(memory.access_count(), 0);
}

// ---- queries ----

#[test]
fn builds_a_query_with_defaults() {
    let query = RecallQuery::new("  package manager  ", 5).unwrap();

    assert_eq!(query.text(), "package manager");
    assert_eq!(query.limit(), 5);
    assert!(query.categories().is_empty());
    assert!(!query.include_superseded());
}

#[test]
fn rejects_an_empty_query() {
    assert!(RecallQuery::new("   ", 5).is_err());
}

#[test]
fn rejects_an_overlong_query() {
    assert!(RecallQuery::new(&"a".repeat(MAX_QUERY_LEN + 1), 5).is_err());
}

#[test]
fn rejects_a_zero_limit() {
    assert!(RecallQuery::new("x", 0).is_err());
}

#[test]
fn clamps_an_excessive_limit_rather_than_failing() {
    let query = RecallQuery::new("x", 10_000).unwrap();
    assert_eq!(query.limit(), MAX_LIMIT);
}

#[test]
fn normalizes_tag_filters() {
    let query = RecallQuery::new("x", 5)
        .unwrap()
        .with_tags(vec![" Rust ".to_string(), "".to_string()]);

    assert_eq!(query.tags(), &["rust".to_string()]);
}

#[test]
fn candidate_depth_exceeds_the_limit_but_stays_bounded() {
    assert!(RecallQuery::new("x", 1).unwrap().candidate_depth() >= 40);
    assert_eq!(RecallQuery::new("x", 10).unwrap().candidate_depth(), 80);
    assert_eq!(RecallQuery::new("x", 50).unwrap().candidate_depth(), 200);
}

// ---- identifiers, times, and the rest ----

#[test]
fn identifiers_are_written_and_read_back() {
    let id = MemoryId { value: 0x019f7c5a_0000_7000_8000_000000000001 };
    assert_eq!(id.to_text(), "019f7c5a-0000-7000-8000-000000000001");
    assert_eq!(MemoryId::parse("019F7C5A-0000-7000-8000-000000000001").unwrap(), id);
    assert!(MemoryId::parse("not an id").is_err());
    assert_ne!(MemoryId::new(), MemoryId::new());
    let user = UserId::new();
    assert_eq!(UserId::parse(&user.to_text()).unwrap(), user);
}

#[test]
fn new_identifiers_are_of_version_seven() {
    for text in [MemoryId::new().to_text(), UserId::new().to_text()] {
        let chars: Vec<char> = text.chars().collect();
        assert_eq!(chars.len(), 36);
        assert_eq!(chars[14], '7');
        assert!(['8', '9', 'a', 'b'].contains(&chars[19]));
    }
    for value in [MemoryId::new().value, UserId::new().value] {
        assert_eq!((value >> 76) & 0xf, 7);
        assert_eq!((value >> 62) & 0x3, 2);
    }
}

#[test]
fn identifier_texts_order_as_their_numbers() {
    let small = MemoryId { value: 0x0000_ffff };
    let large = MemoryId { value: 0x0001_0000 };
    assert!(small.to_text() < large.to_text());
}

#[test]
fn times_are_written_and_read_back() {
    let time = Timestamp::new(1_700_000_000, 500_000_000).unwrap();
    assert_eq!(time.to_text(), "2023-11-14T22:13:20.500+00:00");
    assert_eq!(Timestamp::parse(&time.to_text()).unwrap(), time);
    assert_eq!(Timestamp::parse("2023-11-14T23:13:20+01:00").unwrap(), now());
    assert!(Timestamp::parse("yesterday").is_err());
    assert_eq!(now().day_label(), "2023-11-14");
    assert!(now().is_before(&time));
    assert_eq!(at(1_700_000_000 + DAY).seconds_since(&now()), 86_400);
    assert_eq!(now().seconds_since(&at(1_700_000_000 + DAY)), 0);
    assert!(now().newest_first() > time.newest_first());
}

#[test]
fn the_range_of_times_is_that_of_the_calendar() {
    assert_eq!(MIN_SECONDS, chrono::DateTime::<chrono::Utc>::MIN_UTC.timestamp());
    assert_eq!(MAX_SECONDS, chrono::DateTime::<chrono::Utc>::MAX_UTC.timestamp());
    assert!(Timestamp::new(MAX_SECONDS, 0).is_some());
    assert!(Timestamp::new(MAX_SECONDS + 1, 0).is_none());
    assert!(Timestamp::new(MIN_SECONDS - 1, 0).is_none());
}

#[test]
fn audit_operations_read_back_from_their_names() {
    for operation in [
        AuditOperation::Add,
        AuditOperation::Update,
        AuditOperation::Delete,
        AuditOperation::Supersede,
        AuditOperation::Merge,
    ] {
        assert_eq!(AuditOperation::from_stored(operation.as_str()), Some(operation));
    }
    assert_eq!(AuditOperation::from_stored("rename"), None);
}

#[test]
fn one_text_has_one_vector() {
    assert_eq!(embed_one(vec![vec![1, 2]]).unwrap(), vec![1, 2]);
    assert_eq!(
        embed_one(vec![]).unwrap_err().message(),
        "embedder returned no vector for one input"
    );
}

#[test]
fn keys_are_stripped_until_nothing_changes() {
    for (raw, expected) in [
        ("Sam's.", "sam"),
        ("sam's", "sam"),
        ("Fly.io .", "fly.io"),
        ("Fly.io 's", "fly.io"),
        ("x's's", "x"),
        ("Sam's, ", "sam"),
        ("'s", ""),
        ("the boss", "the boss"),
    ] {
        let key = EntityKey::new(raw);
        assert_eq!(key.as_str(), expected, "{raw:?}");
        assert_eq!(EntityKey::new(key.as_str()).as_str(), expected, "{raw:?}");
    }
    for mark in ['.', ',', ';', ':', '!', '?', '\''] {
        assert_eq!(EntityKey::new(&format!("Meridian team{mark}")).as_str(), "meridian team");
        assert_eq!(EntityKey::new(&format!("Meridian team {mark}")).as_str(), "meridian team");
    }
}

#[test]
fn keys_beyond_ascii_are_their_own_keys() {
    for (raw, expected) in [
        ("M\u{dc}LLER'S.", "m\u{fc}ller"),
        (" \u{c9}cole\u{a0}Normale ", "\u{e9}cole normale"),
        ("\u{130}stanbul,", "i\u{307}stanbul"),
        ("\u{39f}\u{394}\u{39f}\u{3a3}", "\u{3bf}\u{3b4}\u{3bf}\u{3c2}"),
        ("\u{6771}\u{4eac}\u{2019}s", "\u{6771}\u{4eac}"),
    ] {
        let key = EntityKey::new(raw);
        assert_eq!(key.as_str(), expected, "{raw:?}");
        assert_eq!(EntityKey::new(key.as_str()).as_str(), expected, "{raw:?}");
        for mark in ['.', '!', '\'', '\u{2019}', ' '] {
            let marked = format!("{raw}{mark}");
            assert_eq!(EntityKey::new(&marked).as_str(), expected, "{marked:?}");
        }
    }
}

#[test]
fn predicates_beyond_ascii_normalise_once() {
    assert_eq!(normalise_predicate("\u{130}s On"), "is_on");
    for raw in ["\u{130}s On", "\u{c9}tudie \u{e0}", "\u{1e9e}-x"] {
        let once = normalise_predicate(raw);
        assert_eq!(normalise_predicate(&once), once, "{raw:?}");
    }
    assert_eq!(normalise_predicate("\u{c9}tudie"), "\u{e9}tudie");
}

#[test]
fn a_leap_second_counts_in_an_age() {
    let leap = Timestamp::new(59, 1_500_000_000).unwrap();
    assert_eq!(leap.seconds_since(&at(0)), 60);
    assert_eq!(at(120).seconds_since(&leap), 60);
    assert_eq!(at(119).seconds_since(&at(0)), 119);
    assert_eq!(at(0).seconds_since(&leap), 0);
}
