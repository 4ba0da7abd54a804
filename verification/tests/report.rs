use raffle::draw::Winners;
use raffle::report::fill_each;
use raffle::report::fill_report;
use raffle::report::put_first;
use raffle::report::render_id;
use raffle::report::render_list;

#[test]
fn template_with_three_grand_prizes() {
    let winners = Winners {
        grand: vec![7, 2, 9],
        consolation: vec![],
        vouchers_gf10: vec![],
        vouchers_fp5: vec![],
    };
    let out = fill_report("W1:{{ANY}} W2:{{ANY}} W3:{{ANY}}", &winners);
    assert_eq!(out, "W1:#7 W2:#2 W3:#9");
}

#[test]
fn identifier_is_hash_and_decimal_digits() {
    assert_eq!(render_id(0), "#0");
    assert_eq!(render_id(7), "#7");
    assert_eq!(render_id(1203), "#1203");
    assert_eq!(render_id(u32::MAX), "#4294967295");
}

#[test]
fn list_is_joined_by_single_spaces() {
    assert_eq!(render_list(&vec![]), "");
    assert_eq!(render_list(&vec![5]), "#5");
    assert_eq!(render_list(&vec![5, 10, 3]), "#5 #10 #3");
}

#[test]
fn put_first_replaces_only_the_first_occurrence() {
    assert_eq!(put_first("a{{X}}b{{X}}c", "{{X}}", "1"), "a1b{{X}}c");
    assert_eq!(put_first("nothing here", "{{X}}", "1"), "nothing here");
    assert_eq!(put_first("{{X}}", "{{X}}", ""), "");
}

#[test]
fn report_fills_every_kind_of_placeholder() {
    let winners = Winners {
        grand: vec![7, 2, 9],
        consolation: vec![11, 12],
        vouchers_gf10: vec![21, 22, 23],
        vouchers_fp5: vec![31],
    };
    let template = "A {{ANY}}, {{ANY}}, {{ANY}}; B {{NPW}} {{NPW}}; C [{{GF10}}] D [{{FP5}}].";
    assert_eq!(
        fill_report(template, &winners),
        "A #7, #2, #9; B #11 #12; C [#21 #22 #23] D [#31]."
    );
}

#[test]
fn placeholders_are_filled_in_template_order_whatever_their_mix() {
    let winners = Winners {
        grand: vec![1, 2],
        consolation: vec![3, 4],
        vouchers_gf10: vec![5],
        vouchers_fp5: vec![6, 7],
    };
    let template = "{{FP5}}|{{NPW}}|{{ANY}}|{{GF10}}|{{NPW}}|{{ANY}}";
    assert_eq!(fill_report(template, &winners), "#6 #7|#3|#1|#5|#4|#2");
}

#[test]
fn surplus_placeholders_stay_and_surplus_winners_are_left_out() {
    let winners = Winners {
        grand: vec![1],
        consolation: vec![2, 3],
        vouchers_gf10: vec![],
        vouchers_fp5: vec![4],
    };
    assert_eq!(
        fill_report("{{ANY}} {{ANY}} / {{NPW}} / {{GF10}} / {{FP5}} {{FP5}}", &winners),
        "#1 {{ANY}} / #2 /  / #4 {{FP5}}"
    );
}

#[test]
fn template_without_placeholders_is_unchanged() {
    let winners = Winners {
        grand: vec![1, 2, 3],
        consolation: vec![4],
        vouchers_gf10: vec![5],
        vouchers_fp5: vec![6],
    };
    let template = "no { placeholders } here: {ANY} {{any}} #";
    assert_eq!(fill_report(template, &winners), template);
    assert_eq!(fill_report("", &winners), "");
}

#[test]
fn winners_take_placeholders_one_by_one() {
    let filled = fill_each(String::from("{{X}} and {{X}}, {{X}}"), "{{X}}", &vec![4, 5]);
    assert_eq!(filled, "#4 and #5, {{X}}");
    let kept = fill_each(String::from("{{X}}"), "{{X}}", &vec![]);
    assert_eq!(kept, "{{X}}");
}

#[test]
fn empty_placeholder_is_found_at_the_very_start() {
    assert_eq!(put_first("ab", "", "-"), "-ab");
    assert_eq!(put_first("", "", "-"), "-");
    assert_eq!(fill_each(String::from("ab"), "", &vec![1, 2]), "#2#1ab");
}
