use contact_dedup::{calculate_match_score, weighted_score, Contact, Similarity};

// Utility function to create test contacts
fn create_test_contact(
    id: i32,
    name: &str,
    last_name: &str,
    email: &str,
    zip_code: &str,
    address: &str,
) -> Contact {
    Contact {
        id,
        name: name.to_string(),
        last_name: last_name.to_string(),
        email: email.to_string(),
        zip_code: zip_code.to_string(),
        address: address.to_string(),
    }
}

fn fraction(numerator: usize, denominator: usize) -> Similarity {
    Similarity { numerator, denominator }
}

#[test]
fn test_calculate_match_score() {
    let contact1 =
        create_test_contact(1, "John", "Doe", "jhon@example.com", "12345", "123 Main St");
    let mut contact2 = contact1.clone();
    contact2.id = 2;

    let score = calculate_match_score(&contact1, &contact2);
    assert_eq!(score, 1000); // Perfect match should give maximum score
}

#[test]
fn test_calculate_match_score_similar_contacts() {
    let contact1 =
        create_test_contact(1, "John", "Doe", "john@example.com", "12345", "123 Main St");
    let contact2 = create_test_contact(
        2,
        "Jon",
        "Doe",
        "john@example.com",
        "12345",
        "123 Main Street",
    );

    let score = calculate_match_score(&contact1, &contact2);
    assert_eq!(score, 906); // Similar contacts should have high score
}

#[test]
fn test_calculate_match_score_different_contacts() {
    let contact1 =
        create_test_contact(1, "John", "Doe", "john@example.com", "12345", "123 Main St");
    let contact2 = create_test_contact(
        2,
        "Jane",
        "Smith",
        "jane@example.com",
        "54321",
        "456 Oak Ave",
    );

    let score = calculate_match_score(&contact1, &contact2);
    assert_eq!(score, 336); // Different contacts should have lower score
}

#[test]
fn test_calculate_match_score_edge_cases() {
    // Empty fields
    let empty_contact1 = create_test_contact(1, "", "", "", "", "");
    let empty_contact2 = create_test_contact(2, "", "", "", "", "");
    assert_eq!(
        calculate_match_score(&empty_contact1, &empty_contact2),
        1000
    );

    // One empty contact
    let normal_contact =
        create_test_contact(1, "John", "Doe", "john@example.com", "", "123 Main St");
    let score = calculate_match_score(&normal_contact, &empty_contact1);
    assert_eq!(score, 181);

    // Unicode characters
    let unicode_contact1 = create_test_contact(
        1,
        "José",
        "García",
        "jose@example.com",
        "12345",
        "123 Café St",
    );
    let unicode_contact2 = create_test_contact(
        2,
        "Jose",
        "Garcia",
        "jose@example.com",
        "12345",
        "123 Cafe St",
    );
    let unicode_score = calculate_match_score(&unicode_contact1, &unicode_contact2);
    println!("Unicode score: {}", unicode_score);
    assert_eq!(unicode_score, 907); // Should still be high despite accent differences
}

#[test]
fn score_is_symmetric() {
    let contacts = [
        create_test_contact(1, "John", "Doe", "john@example.com", "12345", "123 Main St"),
        create_test_contact(2, "Jon", "Doe", "john@example.com", "12345", "123 Main Street"),
        create_test_contact(3, "Jane", "Smith", "jane@example.com", "54321", "456 Oak Ave"),
        create_test_contact(4, "", "", "", "", ""),
        create_test_contact(5, "José", "García", "jose@example.com", "", "123 Café St"),
    ];
    for a in &contacts {
        for b in &contacts {
            assert_eq!(calculate_match_score(a, b), calculate_match_score(b, a));
        }
    }
}

#[test]
fn score_stays_between_0_and_1000() {
    let contacts = [
        create_test_contact(1, "John", "Doe", "john@example.com", "12345", "123 Main St"),
        create_test_contact(2, "x", "y", "z", "0", "nowhere"),
        create_test_contact(3, "", "", "", "", ""),
        create_test_contact(4, "e\u{301}", "🌟", "⭐", "\r\n", "a\u{310}"),
    ];
    for a in &contacts {
        for b in &contacts {
            let score = calculate_match_score(a, b);
            assert!((0..=1000).contains(&score));
        }
    }
}

#[test]
fn score_of_a_record_with_itself_is_1000() {
    let contacts = [
        create_test_contact(1, "John", "Doe", "john@example.com", "12345", "123 Main St"),
        create_test_contact(2, "", "Doe", "", "12345", ""),
        create_test_contact(3, "", "", "", "", ""),
        create_test_contact(4, "e\u{301}", "🌟", "⭐", "\r\n", "a\u{310}"),
    ];
    for contact in &contacts {
        assert_eq!(calculate_match_score(contact, contact), 1000);
    }
}

#[test]
fn score_ignores_the_identifiers() {
    let a = create_test_contact(7, "John", "Doe", "john@example.com", "12345", "123 Main St");
    let b = create_test_contact(7, "Jon", "Doe", "john@example.com", "12345", "123 Main Street");
    let c = create_test_contact(-3, "Jon", "Doe", "john@example.com", "12345", "123 Main Street");
    assert_eq!(calculate_match_score(&a, &b), 906);
    assert_eq!(calculate_match_score(&a, &c), 906);
}

#[test]
fn score_of_nothing_in_common_is_0() {
    let a = create_test_contact(1, "aaaa", "bbb", "cc", "d", "eeeee");
    let b = create_test_contact(2, "xxxx", "yyy", "zz", "w", "vvvvv");
    assert_eq!(calculate_match_score(&a, &b), 0);
    let empty = create_test_contact(3, "", "", "", "", "");
    assert_eq!(calculate_match_score(&a, &empty), 0);
}

#[test]
fn score_weighs_each_field() {
    let one = fraction(1, 1);
    let zero = fraction(0, 1);
    // 2 of 11, 3 of 11, cut off to a whole number.
    assert_eq!(weighted_score(&one, &zero, &zero, &zero, &zero), 181);
    assert_eq!(weighted_score(&zero, &one, &zero, &zero, &zero), 181);
    assert_eq!(weighted_score(&zero, &zero, &one, &zero, &zero), 272);
    assert_eq!(weighted_score(&zero, &zero, &zero, &one, &zero), 181);
    assert_eq!(weighted_score(&zero, &zero, &zero, &zero, &one), 181);
    assert_eq!(weighted_score(&one, &one, &one, &one, &one), 1000);
    assert_eq!(weighted_score(&zero, &zero, &zero, &zero, &zero), 0);
}

#[test]
fn score_is_cut_off_not_rounded() {
    let one = fraction(1, 1);
    let zero = fraction(0, 1);
    // 9 of 11 is 818.18..., 10 of 11 is 909.09..., 6 of 11 is 545.45...
    assert_eq!(weighted_score(&one, &one, &one, &one, &zero), 818);
    assert_eq!(weighted_score(&one, &one, &fraction(2, 3), &one, &one), 909);
    assert_eq!(weighted_score(&one, &one, &zero, &one, &zero), 545);
    // 10.99 of 11 is 999.09...
    assert_eq!(weighted_score(&one, &one, &one, &one, &fraction(199, 200)), 999);
}

#[test]
fn score_is_exact_where_the_sum_is_a_whole_number() {
    // 2/8 + 6/4 + 6/10 + 6/4 + 0 = 3.85, and 3850 / 11 = 350.
    let score = weighted_score(
        &fraction(1, 8),
        &fraction(3, 4),
        &fraction(2, 10),
        &fraction(3, 4),
        &fraction(0, 1),
    );
    assert_eq!(score, 350);
    // 2/2 + 2/2 + 3/2 + 2 + 0 = 5.5, and 5500 / 11 = 500.
    let half = fraction(1, 2);
    assert_eq!(weighted_score(&half, &half, &half, &fraction(4, 4), &fraction(0, 9)), 500);
}

#[test]
fn score_of_very_long_fields_does_not_overflow() {
    let full = fraction(usize::MAX, usize::MAX);
    assert_eq!(weighted_score(&full, &full, &full, &full, &full), 1000);
    let almost = fraction(usize::MAX - 1, usize::MAX);
    assert_eq!(weighted_score(&almost, &almost, &almost, &almost, &almost), 999);
    let tiny = fraction(1, usize::MAX);
    assert_eq!(weighted_score(&tiny, &tiny, &tiny, &tiny, &tiny), 0);
    let half = fraction(usize::MAX / 2 + 1, usize::MAX);
    assert_eq!(weighted_score(&half, &half, &half, &half, &half), 500);
    let under_half = fraction(usize::MAX / 2, usize::MAX);
    assert_eq!(weighted_score(&under_half, &under_half, &under_half, &under_half, &under_half), 499);
}
