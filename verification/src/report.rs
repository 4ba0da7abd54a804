//! Writing the winners into the placeholders of a report template.
//!
//! A grand-prize winner takes the place of the first `{{ANY}}` still in the
//! text, a consolation winner that of the first `{{NPW}}`. Each voucher group
//! is written as one list, its entries separated by a space, in place of
//! `{{GF10}}` and `{{FP5}}`. An identifier is written as `#` followed by its
//! decimal digits. Nothing else in the template is touched.

use crate::draw::WinnerLists;
use crate::draw::Winners;
use itertools::Itertools;
use vstd::prelude::*;

verus! {

/// Placeholder for one grand-prize winner.
pub const ANY_TOKEN: &'static str = "{{ANY}}";

/// Placeholder for one consolation-prize winner.
pub const NPW_TOKEN: &'static str = "{{NPW}}";

/// Placeholder for the list of winners of the first voucher group.
pub const GF10_TOKEN: &'static str = "{{GF10}}";

/// Placeholder for the list of winners of the second voucher group.
pub const FP5_TOKEN: &'static str = "{{FP5}}";

/// What separates the entries of a list of winners.
pub const LIST_SEPARATOR: &'static str = " ";

/// What stands in front of the digits of an identifier.
pub const ID_PREFIX: &'static str = "#";

/// `pat` stands in `text` at position `at`.
pub open spec fn occurs_at(text: Seq<char>, pat: Seq<char>, at: int) -> bool {
    0 <= at && at + pat.len() <= text.len() && text.subrange(at, at + pat.len()) == pat
}

/// The position of the first occurrence of `pat` in `text` that starts at
/// `from` or later, if there is one.
pub open spec fn find_from(text: Seq<char>, pat: Seq<char>, from: int) -> Option<int>
    decreases text.len() - from,
{
    if from < 0 || from + pat.len() > text.len() {
        None
    } else if occurs_at(text, pat, from) {
        Some(from)
    } else if from < text.len() {
        find_from(text, pat, from + 1)
    } else {
        None
    }
}

/// `text` with its first `count` occurrences of `pat` replaced by `to`,
/// found from the left, each search starting behind the occurrence before.
pub open spec fn replace_first_n(text: Seq<char>, pat: Seq<char>, to: Seq<char>, count: nat) -> Seq<
    char,
>
    decreases count,
{
    if count == 0 {
        text
    } else {
        match find_from(text, pat, 0) {
            None => text,
            Some(at) => text.take(at) + to + replace_first_n(
                text.skip(at + pat.len()),
                pat,
                to,
                (count - 1) as nat,
            ),
        }
    }
}

/// `text` with its first occurrence of `pat`, if any, replaced by `to`.
pub open spec fn replace_first(text: Seq<char>, pat: Seq<char>, to: Seq<char>) -> Seq<char> {
    match find_from(text, pat, 0) {
        None => text,
        Some(at) => text.take(at) + to + text.skip(at + pat.len()),
    }
}

/// What [`find_from`] finds is the first occurrence of `pat` at or behind
/// `from`; where it finds nothing, there is none.
pub proof fn lemma_find_from_is_first(text: Seq<char>, pat: Seq<char>, from: int)
    requires
        0 <= from,
    ensures
        match find_from(text, pat, from) {
            Some(at) => {
                &&& from <= at
                &&& occurs_at(text, pat, at)
                &&& forall|j: int| from <= j < at ==> !occurs_at(text, pat, j)
            },
            None => forall|j: int| from <= j ==> !occurs_at(text, pat, j),
        },
    decreases text.len() - from,
{
    if from < text.len() && from + pat.len() <= text.len() && !occurs_at(text, pat, from) {
        lemma_find_from_is_first(text, pat, from + 1);
    }
}

/// Replacing the first occurrence of `pat` leaves everything in front of it
/// and behind it as it was, and a text without `pat` as a whole.
pub proof fn lemma_replace_first_keeps_the_rest(text: Seq<char>, pat: Seq<char>, to: Seq<char>)
    ensures
        match find_from(text, pat, 0) {
            Some(at) => {
                &&& text == text.take(at) + pat + text.skip(at + pat.len())
                &&& replace_first(text, pat, to) == text.take(at) + to + text.skip(at + pat.len())
            },
            None => replace_first(text, pat, to) == text,
        },
{
    lemma_find_from_is_first(text, pat, 0);
}

/// The character for a decimal digit.
pub open spec fn digit_char(d: nat) -> char {
    if d == 0 {
        '0'
    } else if d == 1 {
        '1'
    } else if d == 2 {
        '2'
    } else if d == 3 {
        '3'
    } else if d == 4 {
        '4'
    } else if d == 5 {
        '5'
    } else if d == 6 {
        '6'
    } else if d == 7 {
        '7'
    } else if d == 8 {
        '8'
    } else {
        '9'
    }
}

/// The decimal digits of `n`, without leading zeros.
pub open spec fn decimal(n: nat) -> Seq<char>
    decreases n,
{
    if n < 10 {
        seq![digit_char(n)]
    } else {
        decimal(n / 10).push(digit_char(n % 10))
    }
}

/// The number that decimal digits denote, the most significant first.
pub open spec fn decimal_value(digits: Seq<char>) -> nat
    decreases digits.len(),
{
    if digits.len() == 0 {
        0
    } else {
        10 * decimal_value(digits.drop_last()) + (digits.last() as nat - '0' as nat) as nat
    }
}

/// The digits of a number denote that number, so that different numbers
/// are written differently.
pub proof fn lemma_decimal_denotes_its_number(n: nat)
    ensures
        decimal_value(decimal(n)) == n,
        decimal(n).len() > 0,
    decreases n,
{
    if n < 10 {
        assert(decimal_value(decimal(n).drop_last()) == 0);
    } else {
        lemma_decimal_denotes_its_number(n / 10);
        assert(decimal(n).drop_last() =~= decimal(n / 10));
    }
}

/// `items` written one after the other with `sep` between neighbours.
pub open spec fn joined(items: Seq<Seq<char>>, sep: Seq<char>) -> Seq<char>
    decreases items.len(),
{
    if items.len() == 0 {
        Seq::empty()
    } else if items.len() == 1 {
        items[0]
    } else {
        joined(items.drop_last(), sep) + sep + items.last()
    }
}

/// How an identifier is written in a report.
pub open spec fn rendered_id(id: u32) -> Seq<char> {
    ID_PREFIX@ + decimal(id as nat)
}

/// How a list of winners is written in a report.
pub open spec fn rendered_list(ids: Seq<u32>) -> Seq<char> {
    joined(ids.map_values(|id: u32| rendered_id(id)), LIST_SEPARATOR@)
}

/// `text` after each of `ids`, in turn, took the place of the first `token`
/// still in it.
pub open spec fn filled_each(text: Seq<char>, token: Seq<char>, ids: Seq<u32>) -> Seq<char>
    decreases ids.len(),
{
    if ids.len() == 0 {
        text
    } else {
        filled_each(replace_first(text, token, rendered_id(ids[0])), token, ids.drop_first())
    }
}

/// The report that `template` becomes for `winners`.
pub open spec fn filled_report(template: Seq<char>, winners: WinnerLists) -> Seq<char> {
    let with_grand = filled_each(template, ANY_TOKEN@, winners.grand);
    let with_consolation = filled_each(with_grand, NPW_TOKEN@, winners.consolation);
    let with_gf10 = replace_first(
        with_consolation,
        GF10_TOKEN@,
        rendered_list(winners.vouchers_gf10),
    );
    replace_first(with_gf10, FP5_TOKEN@, rendered_list(winners.vouchers_fp5))
}

/// Calls `str::replacen` of the standard library.
///
/// Trusted: the first `count` matches of `pat`, found from the left and not
/// overlapping, are replaced by `to`, and the rest of `text` is kept. Stated
/// for a pattern that is not empty.
#[verifier::external_body]
fn replacen(text: &str, pat: &str, to: &str, count: usize) -> (out: String)
    requires
        pat@.len() > 0,
    ensures
        out@ == replace_first_n(text@, pat@, to@, count as nat),
{
    text.replacen(pat, to, count)
}

/// Formats `n` with the standard library's `Display` for `u32`.
///
/// Trusted: the text holds the decimal digits of `n` and nothing else.
#[verifier::external_body]
fn decimal_string(n: u32) -> (out: String)
    ensures
        out@ == decimal(n as nat),
{
    format!("{}", n)
}

/// Calls `Itertools::join` of the `itertools` crate on the entries of
/// `items`.
///
/// Trusted: the entries are written one after the other, in order, with
/// `sep` between neighbours. The separator is at most one character, which
/// keeps the capacity that `join` reserves up front, the separator's bytes
/// times the number of entries, within what a `String` may hold.
#[verifier::external_body]
fn join(items: &Vec<String>, sep: &str) -> (out: String)
    requires
        sep@.len() <= 1,
    ensures
        out@ == joined(items.deep_view(), sep@),
{
    items.iter().join(sep)
}

/// Replaces the first occurrence of `token` in `text`, if any, by `to`. The
/// empty token occurs at the very start of every text.
pub fn put_first(text: &str, token: &str, to: &str) -> (out: String)
    ensures
        out@ == replace_first(text@, token@, to@),
{
    if token.is_empty() {
        assert(occurs_at(text@, token@, 0)) by {
            assert(text@.subrange(0, 0) =~= token@);
        }
        assert(to@ + text@ =~= text@.take(0) + to@ + text@.skip(0));
        let mut out = to.to_owned();
        out.append(text);
        out
    } else {
        proof {
            reveal_with_fuel(replace_first_n, 2);
        }
        replacen(text, token, to, 1)
    }
}

/// Writes an identifier as it appears in a report.
pub fn render_id(id: u32) -> (out: String)
    ensures
        out@ == rendered_id(id),
{
    let digits = decimal_string(id);
    let mut out = ID_PREFIX.to_owned();
    out.append(digits.as_str());
    out
}

/// Writes a list of winners as it appears in a report.
pub fn render_list(ids: &Vec<u32>) -> (out: String)
    ensures
        out@ == rendered_list(ids@),
{
    let mut items: Vec<String> = Vec::new();
    let mut i: usize = 0;
    while i < ids.len()
        invariant
            i <= ids.len(),
            items@.len() == i,
            forall|j: int| 0 <= j < i ==> (#[trigger] items@[j])@ == rendered_id(ids@[j]),
        decreases ids.len() - i,
    {
        let item = render_id(ids[i]);
        items.push(item);
        i += 1;
    }
    proof {
        assert(items.deep_view() =~= ids@.map_values(|id: u32| rendered_id(id)));
        reveal_strlit(" ");
    }
    join(&items, LIST_SEPARATOR)
}

/// Lets each of `ids`, in turn, take the place of the first `token` still
/// in `text`.
pub fn fill_each(text: String, token: &str, ids: &Vec<u32>) -> (out: String)
    ensures
        out@ == filled_each(text@, token@, ids@),
{
    let mut out = text;
    let mut i: usize = 0;
    assert(ids@.skip(0) == ids@);
    while i < ids.len()
        invariant
            i <= ids.len(),
            filled_each(out@, token@, ids@.skip(i as int)) == filled_each(text@, token@, ids@),
        decreases ids.len() - i,
    {
        let id_text = render_id(ids[i]);
        proof {
            assert(ids@.skip(i as int).drop_first() == ids@.skip(i + 1));
        }
        out = put_first(out.as_str(), token, id_text.as_str());
        i += 1;
    }
    out
}

/// Fills the placeholders of `template` with `winners`.
pub fn fill_report(template: &str, winners: &Winners) -> (out: String)
    ensures
        out@ == filled_report(template@, winners@),
{
    let text = fill_each(template.to_owned(), ANY_TOKEN, &winners.grand);
    let text = fill_each(text, NPW_TOKEN, &winners.consolation);
    let gf10 = render_list(&winners.vouchers_gf10);
    let text = put_first(text.as_str(), GF10_TOKEN, gf10.as_str());
    let fp5 = render_list(&winners.vouchers_fp5);
    put_first(text.as_str(), FP5_TOKEN, fp5.as_str())
}

} // verus!
