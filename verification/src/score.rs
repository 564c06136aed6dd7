//! The weighted score of a pair of contact records.

use crate::similarity::{
    calculate_similarity, lemma_text_similarity_identity, lemma_text_similarity_symmetric,
    text_similarity, Ratio, Similarity,
};
use crate::wide::Wide;
use vstd::arithmetic::div_mod::lemma_fundamental_div_mod_converse;
use vstd::prelude::*;

verus! {

/// The weight of the given name in the score.
pub const NAME_WEIGHT: u64 = 2;

/// The weight of the family name in the score.
pub const LAST_NAME_WEIGHT: u64 = 2;

/// The weight of the e-mail address in the score.
pub const EMAIL_WEIGHT: u64 = 3;

/// The weight of the postal code in the score.
pub const ZIP_CODE_WEIGHT: u64 = 2;

/// The weight of the street address in the score.
pub const ADDRESS_WEIGHT: u64 = 2;

/// The sum of the five weights.
pub const TOTAL_WEIGHT: u64 = NAME_WEIGHT + LAST_NAME_WEIGHT + EMAIL_WEIGHT + ZIP_CODE_WEIGHT
    + ADDRESS_WEIGHT;

/// The score of a perfect match.
pub const MAX_SCORE: u64 = 1000;

/// One contact record. The text fields are taken as they are: no trimming,
/// no folding of case.
#[derive(Clone, Debug)]
pub struct Contact {
    pub id: i32,
    pub name: String,
    pub last_name: String,
    pub email: String,
    pub zip_code: String,
    pub address: String,
}

/// The sum of the five similarities, each multiplied by the weight of its
/// field.
pub open spec fn weighted_sum(
    name: Ratio,
    last_name: Ratio,
    email: Ratio,
    zip_code: Ratio,
    address: Ratio,
) -> Ratio {
    name.scaled(NAME_WEIGHT as int).plus(last_name.scaled(LAST_NAME_WEIGHT as int)).plus(
        email.scaled(EMAIL_WEIGHT as int),
    ).plus(zip_code.scaled(ZIP_CODE_WEIGHT as int)).plus(address.scaled(ADDRESS_WEIGHT as int))
}

/// A weighted sum brought to the scale from 0 to 1000 and cut off to a whole
/// number.
pub open spec fn rescaled(sum: Ratio) -> int {
    Ratio { num: sum.num * MAX_SCORE, den: sum.den * TOTAL_WEIGHT }.floor()
}

/// The score that five field similarities give.
pub open spec fn score_of(
    name: Ratio,
    last_name: Ratio,
    email: Ratio,
    zip_code: Ratio,
    address: Ratio,
) -> int {
    rescaled(weighted_sum(name, last_name, email, zip_code, address))
}

/// The score of a pair of contact records.
pub open spec fn match_score(c1: Contact, c2: Contact) -> int {
    score_of(
        text_similarity(c1.name@, c2.name@),
        text_similarity(c1.last_name@, c2.last_name@),
        text_similarity(c1.email@, c2.email@),
        text_similarity(c1.zip_code@, c2.zip_code@),
        text_similarity(c1.address@, c2.address@),
    )
}

/// Adding `weight` times a similarity to a sum that is at most `bound` times
/// its denominator gives a sum that is at most `bound + weight` times its
/// denominator, and exactly that if both are at their most.
proof fn lemma_plus_term(sum: Ratio, bound: int, term: Ratio, weight: int)
    requires
        0 < sum.den,
        0 <= sum.num <= bound * sum.den,
        term.is_unit(),
        0 <= weight,
    ensures
        0 < sum.plus(term.scaled(weight)).den,
        0 <= sum.plus(term.scaled(weight)).num <= (bound + weight) * sum.plus(
            term.scaled(weight),
        ).den,
        sum.num == bound * sum.den && term.num == term.den ==> sum.plus(term.scaled(weight)).num
            == (bound + weight) * sum.plus(term.scaled(weight)).den,
{
    let a = sum.num;
    let b = sum.den;
    let n = term.num;
    let d = term.den;
    assert(0 < b * d) by (nonlinear_arith)
        requires
            0 < b,
            0 < d,
    ;
    assert(0 <= a * d && a * d <= bound * b * d) by (nonlinear_arith)
        requires
            0 <= a <= bound * b,
            0 < d,
    ;
    assert(0 <= (weight * n) * b && (weight * n) * b <= weight * (b * d)) by (nonlinear_arith)
        requires
            0 <= n <= d,
            0 <= weight,
            0 < b,
    ;
    assert((bound + weight) * (b * d) == bound * b * d + weight * (b * d)) by (nonlinear_arith);
    if a == bound * b && n == d {
        assert(a * d == bound * b * d) by (nonlinear_arith)
            requires
                a == bound * b,
        ;
        assert((weight * n) * b == weight * (b * d)) by (nonlinear_arith)
            requires
                n == d,
        ;
    }
}

/// The weighted sum of five similarities lies between zero and the sum of
/// the weights, which it reaches where every field matches perfectly.
pub proof fn lemma_weighted_sum_bounds(
    name: Ratio,
    last_name: Ratio,
    email: Ratio,
    zip_code: Ratio,
    address: Ratio,
)
    requires
        name.is_unit(),
        last_name.is_unit(),
        email.is_unit(),
        zip_code.is_unit(),
        address.is_unit(),
    ensures
        0 < weighted_sum(name, last_name, email, zip_code, address).den,
        0 <= weighted_sum(name, last_name, email, zip_code, address).num <= TOTAL_WEIGHT
            * weighted_sum(name, last_name, email, zip_code, address).den,
        name.num == name.den && last_name.num == last_name.den && email.num == email.den
            && zip_code.num == zip_code.den && address.num == address.den ==> weighted_sum(
            name,
            last_name,
            email,
            zip_code,
            address,
        ).num == TOTAL_WEIGHT * weighted_sum(name, last_name, email, zip_code, address).den,
{
    let s1 = name.scaled(NAME_WEIGHT as int);
    assert(0 <= 2 * name.num <= 2 * name.den);
    let s2 = s1.plus(last_name.scaled(LAST_NAME_WEIGHT as int));
    lemma_plus_term(s1, 2, last_name, LAST_NAME_WEIGHT as int);
    let s3 = s2.plus(email.scaled(EMAIL_WEIGHT as int));
    lemma_plus_term(s2, 4, email, EMAIL_WEIGHT as int);
    let s4 = s3.plus(zip_code.scaled(ZIP_CODE_WEIGHT as int));
    lemma_plus_term(s3, 7, zip_code, ZIP_CODE_WEIGHT as int);
    lemma_plus_term(s4, 9, address, ADDRESS_WEIGHT as int);
}

/// The score that five similarities give lies between 0 and 1000, and is
/// 1000 where every field matches perfectly.
pub proof fn lemma_score_bounds(
    name: Ratio,
    last_name: Ratio,
    email: Ratio,
    zip_code: Ratio,
    address: Ratio,
)
    requires
        name.is_unit(),
        last_name.is_unit(),
        email.is_unit(),
        zip_code.is_unit(),
        address.is_unit(),
    ensures
        0 <= score_of(name, last_name, email, zip_code, address) <= MAX_SCORE,
        name.num == name.den && last_name.num == last_name.den && email.num == email.den
            && zip_code.num == zip_code.den && address.num == address.den ==> score_of(
            name,
            last_name,
            email,
            zip_code,
            address,
        ) == MAX_SCORE,
{
    let sum = weighted_sum(name, last_name, email, zip_code, address);
    lemma_weighted_sum_bounds(name, last_name, email, zip_code, address);
    let n = sum.num;
    let d = sum.den;
    assert(0 <= (n * 1000) / (d * 11) <= 1000) by (nonlinear_arith)
        requires
            0 < d,
            0 <= n <= 11 * d,
    ;
    if n == 11 * d {
        assert((n * 1000) / (d * 11) == 1000) by (nonlinear_arith)
            requires
                0 < d,
                n == 11 * d,
        ;
    }
}

/// The score of a pair of records does not depend on their order.
pub proof fn lemma_match_score_symmetric(c1: Contact, c2: Contact)
    ensures
        match_score(c1, c2) == match_score(c2, c1),
{
    lemma_text_similarity_symmetric(c1.name@, c2.name@);
    lemma_text_similarity_symmetric(c1.last_name@, c2.last_name@);
    lemma_text_similarity_symmetric(c1.email@, c2.email@);
    lemma_text_similarity_symmetric(c1.zip_code@, c2.zip_code@);
    lemma_text_similarity_symmetric(c1.address@, c2.address@);
}

/// Two records that agree in every text field score 1000, whatever their
/// identifiers are and also where fields are empty.
pub proof fn lemma_match_score_identical(c1: Contact, c2: Contact)
    requires
        c1.name@ == c2.name@,
        c1.last_name@ == c2.last_name@,
        c1.email@ == c2.email@,
        c1.zip_code@ == c2.zip_code@,
        c1.address@ == c2.address@,
    ensures
        match_score(c1, c2) == MAX_SCORE,
{
    lemma_text_similarity_identity(c1.name@);
    lemma_text_similarity_identity(c1.last_name@);
    lemma_text_similarity_identity(c1.email@);
    lemma_text_similarity_identity(c1.zip_code@);
    lemma_text_similarity_identity(c1.address@);
    let name = text_similarity(c1.name@, c2.name@);
    let last_name = text_similarity(c1.last_name@, c2.last_name@);
    let email = text_similarity(c1.email@, c2.email@);
    let zip_code = text_similarity(c1.zip_code@, c2.zip_code@);
    let address = text_similarity(c1.address@, c2.address@);
    lemma_score_bounds(name, last_name, email, zip_code, address);
}

/// The fraction of two numbers of any size.
spec fn wide_ratio(num: Wide, den: Wide) -> Ratio {
    Ratio { num: num.value() as int, den: den.value() as int }
}

/// The sum `num / den` with `weight` times the similarity `term` added.
fn plus_term(num: Wide, den: Wide, weight: u64, term: &Similarity) -> (sum: (Wide, Wide))
    ensures
        wide_ratio(sum.0, sum.1) == wide_ratio(num, den).plus(term@.scaled(weight as int)),
{
    let n = term.numerator as u64;
    let d = term.denominator as u64;
    let added = den.times(n).times(weight);
    let new_num = num.times(d).plus(&added);
    let new_den = den.times(d);
    proof {
        assert(den.value() * n * weight == (weight * n) * den.value()) by (nonlinear_arith);
    }
    (new_num, new_den)
}

/// The largest `k` with `k * unit <= total`, searched between 0 and 1000.
fn quotient(total: &Wide, unit: &Wide) -> (k: u64)
    requires
        0 < unit.value(),
        total.value() <= MAX_SCORE * unit.value(),
    ensures
        k == total.value() / unit.value(),
        k <= MAX_SCORE,
{
    let mut low: u64 = 0;
    let mut high: u64 = MAX_SCORE + 1;
    while high - low > 1
        invariant
            low < high <= MAX_SCORE + 1,
            0 < unit.value(),
            low * unit.value() <= total.value(),
            total.value() < high * unit.value(),
        decreases high - low,
    {
        let mid = low + (high - low) / 2;
        assert(mid * unit.value() == unit.value() * mid) by (nonlinear_arith);
        if unit.times(mid).at_most(total) {
            low = mid;
        } else {
            high = mid;
        }
    }
    proof {
        let x = total.value() as int;
        let u = unit.value() as int;
        assert((low + 1) * u == low * u + u) by (nonlinear_arith);
        lemma_fundamental_div_mod_converse(x, u, low as int, x - low * u);
    }
    low
}

/// The score that five field similarities give: their weighted sum, brought
/// to the scale from 0 to 1000 and cut off to a whole number.
pub fn weighted_score(
    name: &Similarity,
    last_name: &Similarity,
    email: &Similarity,
    zip_code: &Similarity,
    address: &Similarity,
) -> (score: i32)
    requires
        name@.is_unit(),
        last_name@.is_unit(),
        email@.is_unit(),
        zip_code@.is_unit(),
        address@.is_unit(),
    ensures
        score == score_of(name@, last_name@, email@, zip_code@, address@),
        0 <= score <= MAX_SCORE,
{
    let num = Wide::from_u64(name.numerator as u64).times(NAME_WEIGHT);
    let den = Wide::from_u64(name.denominator as u64);
    assert(num.value() == NAME_WEIGHT * name@.num) by (nonlinear_arith)
        requires
            num.value() == name@.num * NAME_WEIGHT,
    ;
    let (num, den) = plus_term(num, den, LAST_NAME_WEIGHT, last_name);
    let (num, den) = plus_term(num, den, EMAIL_WEIGHT, email);
    let (num, den) = plus_term(num, den, ZIP_CODE_WEIGHT, zip_code);
    let (num, den) = plus_term(num, den, ADDRESS_WEIGHT, address);
    proof {
        lemma_weighted_sum_bounds(name@, last_name@, email@, zip_code@, address@);
        lemma_score_bounds(name@, last_name@, email@, zip_code@, address@);
    }
    let total = num.times(MAX_SCORE);
    let unit = den.times(TOTAL_WEIGHT);
    assert(0 < unit.value() && total.value() <= MAX_SCORE * unit.value()) by (nonlinear_arith)
        requires
            total.value() == num.value() * MAX_SCORE,
            unit.value() == den.value() * TOTAL_WEIGHT,
            num.value() <= TOTAL_WEIGHT * den.value(),
            0 < den.value(),
            TOTAL_WEIGHT == 11,
    ;
    let k = quotient(&total, &unit);
    k as i32
}

/// The score of a pair of contact records, between 0 and 1000.
pub fn calculate_match_score(contact1: &Contact, contact2: &Contact) -> (score: i32)
    ensures
        score == match_score(*contact1, *contact2),
        0 <= score <= MAX_SCORE,
{
    let name = calculate_similarity(contact1.name.as_str(), contact2.name.as_str());
    let last_name = calculate_similarity(contact1.last_name.as_str(), contact2.last_name.as_str());
    let email = calculate_similarity(contact1.email.as_str(), contact2.email.as_str());
    let zip_code = calculate_similarity(contact1.zip_code.as_str(), contact2.zip_code.as_str());
    let address = calculate_similarity(contact1.address.as_str(), contact2.address.as_str());
    weighted_score(&name, &last_name, &email, &zip_code, &address)
}

} // verus!
