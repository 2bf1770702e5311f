use copilot_money_cli::categories::{
    category_lookup, filter_by_name, flatten_categories, flatten_categories_for_lookup, pick_category,
    CategoryError, CategoryLookup,
};
use copilot_money_cli::cli::{ColorMode, RecurringsListArgs, TagUpdateMode, TransactionsSort};
use copilot_money_cli::client::{Category, ClientMode, CopilotClient, PageInfo, Recurring, Tag, Transaction};
use copilot_money_cli::display::{
    amount_color, columns_from_text, confirm_write, confirms, reviewed_mark, should_color,
    shorten_id_for_table, try_shorten_id, AmountColor, WriteDecision,
};
use copilot_money_cli::recurrings::filter_recurrings;
use copilot_money_cli::responses::{
    format_graphql_error, is_unauthenticated, response_action, token_from_text, GraphqlError, ResponseAction,
};
use copilot_money_cli::transactions::{
    build_transaction_id_refs, build_transactions_filter, category_label, distinct_count, filter_transactions,
    keep_wanted, next_tag_ids, notes_to_set, order_by_ids, page_budget, require_item_and_account,
    scan_goes_on, sort_to_graphql, tag_update_is_complete, tags_text, wants_next_page, TransactionError,
};
use copilot_money_cli::types::{
    CategoryId, OwnedId, RecurringFrequency, RecurringId, TagId, TransactionId, TransactionType,
};

fn txn(id: &str) -> Transaction {
    Transaction {
        id: TransactionId::new(id.to_string()),
        date: None,
        name: None,
        amount: None,
        item_id: None,
        txn_type: None,
        is_reviewed: None,
        category_id: None,
        account_id: None,
        recurring_id: None,
        user_notes: None,
        tags: None,
    }
}

fn tag(id: &str, name: Option<&str>) -> Tag {
    Tag { id: TagId::new(id.to_string()), name: name.map(|n| n.to_string()), color_name: None }
}

fn category(id: &str, name: Option<&str>, children: Option<Vec<Category>>) -> Category {
    Category {
        id: CategoryId::new(id.to_string()),
        name: name.map(|n| n.to_string()),
        is_rollover_disabled: None,
        can_be_deleted: Some(true),
        is_excluded: None,
        template_id: None,
        color_name: None,
        icon: None,
        child_categories: children,
    }
}

fn ids(txns: &[Transaction]) -> Vec<String> {
    txns.iter().map(|t| t.id.as_str().to_string()).collect()
}

fn page(has_next: Option<bool>, cursor: Option<&str>) -> PageInfo {
    PageInfo {
        end_cursor: cursor.map(|c| c.to_string()),
        has_next_page: has_next,
        has_previous_page: None,
        start_cursor: None,
    }
}

#[test]
fn owned_ids_carry_their_text() {
    let id: OwnedId<u8> = OwnedId::new("abc".to_string());
    assert_eq!(id.as_str(), "abc");
    assert_eq!(id.to_text(), "abc");
    assert!(id.same(&OwnedId::new("abc".to_string())));
    assert!(!id.same(&OwnedId::new("abd".to_string())));
    assert_eq!(id.clone().as_str(), "abc");
}

#[test]
fn enumerations_have_the_service_names() {
    assert_eq!(TransactionType::Regular.label(), "REGULAR");
    assert_eq!(TransactionType::InternalTransfer.label(), "INTERNAL_TRANSFER");
    assert_eq!(TransactionType::Other.label(), "OTHER");
    assert_eq!(RecurringFrequency::Daily.label(), "DAILY");
    assert_eq!(RecurringFrequency::Weekly.label(), "WEEKLY");
    assert_eq!(RecurringFrequency::Biweekly.label(), "BIWEEKLY");
    assert_eq!(RecurringFrequency::Monthly.label(), "MONTHLY");
    assert_eq!(RecurringFrequency::Quarterly.label(), "QUARTERLY");
    assert_eq!(RecurringFrequency::Annually.label(), "ANNUALLY");
    assert_eq!(RecurringFrequency::Other.label(), "OTHER");
}

#[test]
fn a_client_keeps_its_mode() {
    let client = CopilotClient::new(ClientMode::Fixtures("fixtures".into()));
    assert!(matches!(client.mode(), ClientMode::Fixtures(dir) if dir.to_str() == Some("fixtures")));
}

#[test]
fn sort_to_graphql_maps_values() {
    assert_eq!(sort_to_graphql(Some(TransactionsSort::DateDesc)), Some(("DATE", "DESC")));
    assert_eq!(sort_to_graphql(Some(TransactionsSort::DateAsc)), Some(("DATE", "ASC")));
    assert_eq!(sort_to_graphql(Some(TransactionsSort::AmountDesc)), Some(("AMOUNT", "DESC")));
    assert_eq!(sort_to_graphql(Some(TransactionsSort::AmountAsc)), Some(("AMOUNT", "ASC")));
    assert!(sort_to_graphql(None).is_none());
}

#[test]
fn build_transactions_filter_works() {
    assert_eq!(build_transactions_filter(true, false), Some(true));
    assert_eq!(build_transactions_filter(false, true), Some(false));
    assert_eq!(build_transactions_filter(false, false), None);
    assert_eq!(build_transactions_filter(true, true), Some(true));
}

#[test]
fn filters_on_review_state() {
    let mut done = txn("a");
    done.is_reviewed = Some(true);
    let mut open = txn("b");
    open.is_reviewed = Some(false);
    let unknown = txn("c");
    let all = || {
        let mut d = txn("a");
        d.is_reviewed = Some(true);
        let mut o = txn("b");
        o.is_reviewed = Some(false);
        vec![d, o, txn("c")]
    };
    assert_eq!(ids(&filter_transactions(vec![done, open, unknown], false, false, None, &vec![], None, None)), ["a", "b", "c"]);
    assert_eq!(ids(&filter_transactions(all(), true, false, None, &vec![], None, None)), ["a"]);
    assert_eq!(ids(&filter_transactions(all(), false, true, None, &vec![], None, None)), ["b", "c"]);
    assert!(filter_transactions(all(), true, true, None, &vec![], None, None).is_empty());
}

#[test]
fn filters_on_category_name_date_and_tags() {
    let make = || {
        let mut a = txn("a");
        a.category_id = Some(CategoryId::new("cat_1".to_string()));
        a.name = Some("Amazon Prime".to_string());
        a.date = Some("2025-12-15".to_string());
        a.tags = Some(vec![tag("t1", Some("Shopping")), tag("t2", None)]);
        let mut b = txn("b");
        b.category_id = Some(CategoryId::new("cat_2".to_string()));
        b.name = Some("Rent".to_string());
        b.date = Some("12-15-2025".to_string());
        b.tags = Some(vec![tag("t3", Some("home"))]);
        vec![a, b, txn("c")]
    };
    let cat = CategoryId::new("cat_1".to_string());
    assert_eq!(ids(&filter_transactions(make(), false, false, Some(&cat), &vec![], None, None)), ["a"]);
    assert_eq!(ids(&filter_transactions(make(), false, false, None, &vec![], Some("AMAZON"), None)), ["a"]);
    assert_eq!(ids(&filter_transactions(make(), false, false, None, &vec![], Some(""), None)), ["a", "b", "c"]);
    assert_eq!(ids(&filter_transactions(make(), false, false, None, &vec![], None, Some("12-15-2025"))), ["a"]);
    assert_eq!(ids(&filter_transactions(make(), false, false, None, &vec![], None, Some("2025-12-15"))), ["a"]);
    assert!(filter_transactions(make(), false, false, None, &vec![], None, Some("yesterday")).is_empty());
    assert_eq!(ids(&filter_transactions(make(), false, false, None, &vec![], None, Some(""))), ["c"]);
    let wanted = vec!["SHOPPING".to_string(), "Home".to_string()];
    assert_eq!(ids(&filter_transactions(make(), false, false, None, &wanted, None, None)), ["a", "b"]);
    assert_eq!(ids(&filter_transactions(make(), false, false, None, &vec!["home".to_string()], None, None)), ["b"]);
    assert!(filter_transactions(make(), false, false, None, &vec!["none".to_string()], None, None).is_empty());
}

#[test]
fn id_refs_need_item_and_account() {
    let mut whole = txn("t1");
    whole.item_id = Some(OwnedId::new("item".to_string()));
    whole.account_id = Some(OwnedId::new("acct".to_string()));
    let (item, account) = require_item_and_account(&whole).unwrap();
    assert_eq!((item.as_str(), account.as_str()), ("item", "acct"));

    let mut no_account = txn("t2");
    no_account.item_id = Some(OwnedId::new("item".to_string()));
    let err = require_item_and_account(&no_account).unwrap_err();
    assert!(matches!(&err, TransactionError::MissingAccountId(id) if id.as_str() == "t2"));
    assert_eq!(err.message(), "transaction t2 missing accountId");

    let err = require_item_and_account(&txn("t3")).unwrap_err();
    assert!(matches!(&err, TransactionError::MissingItemId(id) if id.as_str() == "t3"));
    assert_eq!(err.message(), "transaction t3 missing itemId");

    let refs = build_transaction_id_refs(&vec![whole]).unwrap();
    assert_eq!(refs.len(), 1);
    assert_eq!((refs[0].id.as_str(), refs[0].item_id.as_str(), refs[0].account_id.as_str()), ("t1", "item", "acct"));
    assert!(build_transaction_id_refs(&vec![]).unwrap().is_empty());
    let err = build_transaction_id_refs(&vec![no_account, txn("t3")]).unwrap_err();
    assert_eq!(err.message(), "transaction t2 missing accountId");
}

#[test]
fn paging_follows_budget_cursor_and_announcement() {
    assert_eq!(page_budget(true, 3), usize::MAX);
    assert_eq!(page_budget(false, 3), 3);
    assert_eq!(page_budget(false, 0), 1);
    assert!(wants_next_page(1, 2, &page(Some(true), Some("c"))));
    assert!(!wants_next_page(2, 2, &page(Some(true), Some("c"))));
    assert!(!wants_next_page(1, 2, &page(Some(true), None)));
    assert!(!wants_next_page(1, 2, &page(Some(false), Some("c"))));
    assert!(!wants_next_page(1, 2, &page(None, Some("c"))));
    assert!(scan_goes_on(1, 2, &page(Some(true), None), 199));
    assert!(!scan_goes_on(2, 2, &page(Some(true), None), 1));
    assert!(!scan_goes_on(1, 2, &page(None, None), 1));
    assert!(!scan_goes_on(1, 2, &page(Some(true), None), 200));
}

#[test]
fn wanted_transactions_are_kept_and_ordered() {
    let wanted: Vec<TransactionId> =
        ["b", "a", "b"].iter().map(|s| TransactionId::new(s.to_string())).collect();
    assert_eq!(distinct_count(&wanted), 2);
    assert_eq!(distinct_count(&Vec::new()), 0);
    let mut found = Vec::new();
    let mut first_a = txn("a");
    first_a.name = Some("old".to_string());
    keep_wanted(&mut found, vec![first_a, txn("x")], &wanted);
    assert_eq!(ids(&found), ["a"]);
    let mut second_a = txn("a");
    second_a.name = Some("new".to_string());
    keep_wanted(&mut found, vec![txn("b"), second_a], &wanted);
    assert_eq!(ids(&found), ["a", "b"]);
    assert_eq!(found[0].name.as_deref(), Some("new"));

    let missing = order_by_ids(&wanted, found).unwrap_err();
    assert_eq!(missing, ["b"]);
    let two: Vec<TransactionId> = ["b", "a"].iter().map(|s| TransactionId::new(s.to_string())).collect();
    let ordered = order_by_ids(&two, vec![txn("a"), txn("c"), txn("b")]).unwrap();
    assert_eq!(ids(&ordered), ["b", "a"]);
    assert_eq!(order_by_ids(&two, vec![txn("a")]).unwrap_err(), ["b"]);
    assert!(order_by_ids(&Vec::new(), vec![txn("a")]).unwrap().is_empty());
}

#[test]
fn tag_updates_replace_add_and_remove() {
    let mut t = txn("t");
    t.tags = Some(vec![tag("one", Some("One")), tag("two", None), tag("one", None)]);
    let given: Vec<TagId> = ["two", "three", "three"].iter().map(|s| TagId::new(s.to_string())).collect();
    let texts = |v: Vec<TagId>| v.iter().map(|i| i.as_str().to_string()).collect::<Vec<_>>();
    assert_eq!(texts(next_tag_ids(&t, TagUpdateMode::Replace, &given)), ["two", "three", "three"]);
    let mut added = texts(next_tag_ids(&t, TagUpdateMode::Add, &given));
    added.sort();
    assert_eq!(added, ["one", "three", "two"]);
    assert_eq!(texts(next_tag_ids(&t, TagUpdateMode::Remove, &given)), ["one"]);
    assert!(texts(next_tag_ids(&txn("u"), TagUpdateMode::Remove, &given)).is_empty());
    let mut from_none = texts(next_tag_ids(&txn("u"), TagUpdateMode::Add, &given));
    from_none.sort();
    assert_eq!(from_none, ["three", "two"]);
}

#[test]
fn categories_flatten_parents_first() {
    let tree = vec![
        category("food", Some("Food"), Some(vec![category("out", Some("Eating Out"), None), category("in", None, None)])),
        category("home", Some("Home"), None),
    ];
    let flat = flatten_categories(&tree, true);
    let rows: Vec<(String, String, Option<String>)> = flat
        .iter()
        .map(|c| (c.id.as_str().to_string(), c.name.clone(), c.parent_id.as_ref().map(|p| p.as_str().to_string())))
        .collect();
    assert_eq!(
        rows,
        [
            ("food".to_string(), "Food".to_string(), None),
            ("out".to_string(), "Eating Out".to_string(), Some("food".to_string())),
            ("in".to_string(), String::new(), Some("food".to_string())),
            ("home".to_string(), "Home".to_string(), None),
        ]
    );
    assert_eq!(flat[0].can_be_deleted, Some(true));
    assert_eq!(flat[0].is_excluded, None);
    let top = flatten_categories(&tree, false);
    assert_eq!(top.iter().map(|c| c.id.as_str()).collect::<Vec<_>>(), ["food", "home"]);
    let lookup = flatten_categories_for_lookup(&tree);
    assert_eq!(
        lookup.iter().map(|(id, name)| (id.as_str(), name.as_str())).collect::<Vec<_>>(),
        [("food", "Food"), ("out", "Eating Out"), ("in", ""), ("home", "Home")]
    );
    assert!(flatten_categories(&Vec::new(), true).is_empty());
    let kept = filter_by_name(flatten_categories(&tree, true), "O");
    assert_eq!(kept.iter().map(|c| c.id.as_str()).collect::<Vec<_>>(), ["food", "out", "home"]);
    assert_eq!(filter_by_name(flatten_categories(&tree, true), "").len(), 4);
    assert!(filter_by_name(flatten_categories(&tree, true), "rent").is_empty());
}

#[test]
fn categories_are_chosen_by_identifier_or_by_name() {
    let given = CategoryId::new("cat_9".to_string());
    assert!(matches!(category_lookup(Some(&given), Some("Other")), Ok(CategoryLookup::Known(id)) if id.as_str() == "cat_9"));
    assert!(matches!(category_lookup(None, None), Ok(CategoryLookup::Nothing)));
    assert!(matches!(category_lookup(None, Some("  OTHER ")), Ok(CategoryLookup::ByName(want)) if want == "other"));
    assert_eq!(category_lookup(None, Some("   ")).unwrap_err(), CategoryError::EmptyName);
    assert_eq!(category_lookup(None, Some("")).unwrap_err(), CategoryError::EmptyName);

    let rows = vec![
        (CategoryId::new("a".to_string()), "Other".to_string()),
        (CategoryId::new("b".to_string()), "Food".to_string()),
        (CategoryId::new("c".to_string()), "FOOD".to_string()),
        (CategoryId::new("d".to_string()), "fOod".to_string()),
    ];
    assert_eq!(pick_category(&rows, "other").unwrap().as_str(), "a");
    assert_eq!(pick_category(&rows, "food").unwrap_err(), CategoryError::Ambiguous(3));
    assert_eq!(pick_category(&rows, "rent").unwrap_err(), CategoryError::NoneNamed);
    assert_eq!(pick_category(&rows, "Other").unwrap_err(), CategoryError::NoneNamed);
    assert_eq!(pick_category(&Vec::new(), "other").unwrap_err(), CategoryError::NoneNamed);
}

#[test]
fn recurrings_filter_on_category_and_name() {
    let make = || {
        vec![
            Recurring {
                id: RecurringId::new("r1".to_string()),
                name: Some("Monthly Rent".to_string()),
                frequency: Some(RecurringFrequency::Monthly),
                category_id: Some(CategoryId::new("cat_housing".to_string())),
            },
            Recurring {
                id: RecurringId::new("r2".to_string()),
                name: None,
                frequency: None,
                category_id: None,
            },
            Recurring {
                id: RecurringId::new("r3".to_string()),
                name: Some("Gym".to_string()),
                frequency: None,
                category_id: Some(CategoryId::new("cat_health".to_string())),
            },
        ]
    };
    let names = |v: Vec<Recurring>| v.iter().map(|r| r.id.as_str().to_string()).collect::<Vec<_>>();
    let args = |cat: Option<&str>, q: Option<&str>| RecurringsListArgs {
        category_id: cat.map(|c| CategoryId::new(c.to_string())),
        name_contains: q.map(|s| s.to_string()),
    };
    assert_eq!(names(filter_recurrings(make(), &args(None, None))), ["r1", "r2", "r3"]);
    assert_eq!(names(filter_recurrings(make(), &args(Some("cat_housing"), None))), ["r1"]);
    assert_eq!(names(filter_recurrings(make(), &args(None, Some("RENT")))), ["r1"]);
    assert_eq!(names(filter_recurrings(make(), &args(None, Some("")))), ["r1", "r2", "r3"]);
    assert!(names(filter_recurrings(make(), &args(Some("cat_health"), Some("rent")))).is_empty());
}

#[test]
fn errors_of_the_service_are_put_in_words() {
    let full = GraphqlError { message: Some("Value does not exist".to_string()), code: Some("BAD_USER_INPUT".to_string()) };
    assert_eq!(format_graphql_error(Some(&full)), Some("graphql error (BAD_USER_INPUT): Value does not exist".to_string()));
    let message = GraphqlError { message: Some("nope".to_string()), code: None };
    assert_eq!(format_graphql_error(Some(&message)), Some("graphql error: nope".to_string()));
    let code = GraphqlError { message: Some(String::new()), code: Some("X".to_string()) };
    assert_eq!(format_graphql_error(Some(&code)), Some("graphql error (X)".to_string()));
    let bare = GraphqlError { message: None, code: None };
    assert_eq!(format_graphql_error(Some(&bare)), None);
    assert_eq!(format_graphql_error(Some(&GraphqlError { message: Some(String::new()), code: None })), None);
    assert_eq!(format_graphql_error(None), None);

    let expired = GraphqlError { message: Some("login".to_string()), code: Some("UNAUTHENTICATED".to_string()) };
    assert!(is_unauthenticated(Some(&expired)));
    assert!(!is_unauthenticated(Some(&full)));
    assert!(!is_unauthenticated(Some(&bare)));
    assert!(!is_unauthenticated(None));

    assert_eq!(response_action(1, Some(&expired), true, false), ResponseAction::RefreshAndRetry);
    assert_eq!(response_action(2, Some(&expired), true, false), ResponseAction::FailUnauthenticated);
    assert_eq!(response_action(1, Some(&expired), false, true), ResponseAction::FailUnauthenticated);
    assert_eq!(
        response_action(1, Some(&message), true, true),
        ResponseAction::FailWithError("graphql error: nope".to_string())
    );
    assert_eq!(response_action(1, Some(&bare), true, false), ResponseAction::FailHttpStatus);
    assert_eq!(response_action(1, None, false, false), ResponseAction::FailHttpStatus);
    assert_eq!(response_action(1, None, false, true), ResponseAction::Accept);
}

#[test]
fn a_token_is_the_trimmed_text_of_its_file() {
    assert_eq!(token_from_text(" test_token\n"), Some("test_token".to_string()));
    assert_eq!(token_from_text("a b"), Some("a b".to_string()));
    assert_eq!(token_from_text(""), None);
    assert_eq!(token_from_text(" \n\t"), None);
}

#[test]
fn colour_and_confirmation_follow_the_flags() {
    assert!(should_color(ColorMode::Always, false));
    assert!(!should_color(ColorMode::Never, true));
    assert!(should_color(ColorMode::Auto, true));
    assert!(!should_color(ColorMode::Auto, false));
    assert_eq!(confirm_write(true, false, false), WriteDecision::Proceed);
    assert_eq!(confirm_write(false, true, false), WriteDecision::Proceed);
    assert_eq!(confirm_write(false, false, false), WriteDecision::Refuse);
    assert_eq!(confirm_write(false, false, true), WriteDecision::Ask);
    assert!(confirms("yes"));
    assert!(confirms("  yes\n"));
    assert!(!confirms("y"));
    assert!(!confirms("YES"));
    assert!(!confirms(""));
}

#[test]
fn identifiers_are_shortened_for_tables() {
    assert_eq!(shorten_id_for_table("short"), "short");
    assert_eq!(shorten_id_for_table("  padded  "), "padded");
    assert_eq!(shorten_id_for_table(""), "");
    assert_eq!(shorten_id_for_table("123456789012345678"), "123456789012345678");
    assert_eq!(shorten_id_for_table("1234567890123456789"), "12345678â€¦456789");
    assert_eq!(try_shorten_id("abcdefghijklmnopqrstuvwxyz"), Some("abcdefghâ€¦uvwxyz".to_string()));
    assert_eq!(try_shorten_id("abcdefgéijklmnopqrstuvwxyz"), None);
    assert_eq!(try_shorten_id("abcdefghijklmnopqrstéuvwxy"), None);
    assert_eq!(try_shorten_id("éabcdefgijklmnopqrstuvwxyz"), Some("éabcdefâ€¦uvwxyz".to_string()));
    assert_eq!(try_shorten_id("tiny"), Some("tiny".to_string()));
}

#[test]
fn the_width_of_the_terminal_is_read_from_text() {
    assert_eq!(columns_from_text("80"), Some(80));
    assert_eq!(columns_from_text("+120"), Some(120));
    assert_eq!(columns_from_text("0"), Some(0));
    assert_eq!(columns_from_text("00080"), Some(80));
    assert_eq!(columns_from_text("65535"), Some(65535));
    assert_eq!(columns_from_text("65536"), None);
    assert_eq!(columns_from_text("99999999999999999999"), None);
    assert_eq!(columns_from_text(""), None);
    assert_eq!(columns_from_text("+"), None);
    assert_eq!(columns_from_text("-1"), None);
    assert_eq!(columns_from_text(" 80"), None);
    assert_eq!(columns_from_text("8o"), None);
    assert_eq!(columns_from_text("++8"), None);
}

#[test]
fn table_cells_show_tags_category_mark_and_colour() {
    let mut t = txn("t");
    assert_eq!(tags_text(&t), "");
    t.tags = Some(vec![tag("1", None), tag("2", Some("Food")), tag("3", None), tag("4", Some("Fun"))]);
    assert_eq!(tags_text(&t), "Food,Fun");
    t.tags = Some(vec![tag("1", Some("Solo"))]);
    assert_eq!(tags_text(&t), "Solo");
    t.tags = Some(Vec::new());
    assert_eq!(tags_text(&t), "");

    let rows = vec![
        (CategoryId::new("a".to_string()), "First".to_string()),
        (CategoryId::new("b".to_string()), "Other".to_string()),
        (CategoryId::new("a".to_string()), "Second".to_string()),
    ];
    assert_eq!(category_label(&t, &rows), "");
    t.category_id = Some(CategoryId::new("a".to_string()));
    assert_eq!(category_label(&t, &rows), "Second");
    t.category_id = Some(CategoryId::new("b".to_string()));
    assert_eq!(category_label(&t, &rows), "Other");
    t.category_id = Some(CategoryId::new("zz".to_string()));
    assert_eq!(category_label(&t, &rows), "zz");
    assert_eq!(category_label(&t, &Vec::new()), "zz");

    assert_eq!(reviewed_mark(true), "âœ“");
    assert_eq!(reviewed_mark(false), "");
    assert_eq!(amount_color(""), None);
    assert_eq!(amount_color("-$57.48"), Some(AmountColor::Red));
    assert_eq!(amount_color("$185.40"), Some(AmountColor::Green));
    assert_eq!(amount_color("-"), Some(AmountColor::Green));
}

#[test]
fn updates_need_their_arguments() {
    assert_eq!(notes_to_set(true, Some("kept out")), Some(String::new()));
    assert_eq!(notes_to_set(true, None), Some(String::new()));
    assert_eq!(notes_to_set(false, Some("hello world")), Some("hello world".to_string()));
    assert_eq!(notes_to_set(false, None), None);
    let one = vec![TagId::new("t".to_string())];
    assert!(tag_update_is_complete(TagUpdateMode::Replace, &Vec::new()));
    assert!(tag_update_is_complete(TagUpdateMode::Add, &one));
    assert!(!tag_update_is_complete(TagUpdateMode::Add, &Vec::new()));
    assert!(!tag_update_is_complete(TagUpdateMode::Remove, &Vec::new()));
}
