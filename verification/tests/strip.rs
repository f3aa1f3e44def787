use tag_stripper::scanner::Scanner;
use tag_stripper::strip_tags;

#[test]
fn should_not_strip_invalid_tags() {
    let result = strip_tags("lorem ipsum < a> < div>");
    assert_eq!(result, "lorem ipsum < a> < div>");
}

#[test]
fn should_remove_simple_html_tags() {
    let result = strip_tags("<a href=\"\">lorem <strong>ipsum</strong></a>");
    assert_eq!(result, "lorem ipsum");
}

#[test]
fn should_remove_comments() {
    let result = strip_tags("<!-- lorem -- ipsum -- --> dolor sit amet");
    assert_eq!(result, " dolor sit amet");
}

#[test]
fn should_strip_tags_within_comments() {
    let result = strip_tags("<!-- <strong>lorem ipsum</strong> --> dolor sit");
    assert_eq!(result, " dolor sit");
}

#[test]
fn should_not_fail_with_nested_quotes() {
    let result = strip_tags("<article attr=\"foo 'bar'\">lorem</article> ipsum");
    assert_eq!(result, "lorem ipsum");
}

#[test]
fn should_strip_extra_within_tags() {
    let result = strip_tags("<div<>>lorem ipsum</div>");
    assert_eq!(result, "lorem ipsum");
}

#[test]
fn should_strip_within_quotes() {
    let result = strip_tags("<a href=\"<script>\">lorem ipsum</a>");
    assert_eq!(result, "lorem ipsum");
}

#[test]
fn should_keep_plain_text_unchanged() {
    let result = strip_tags("lorem ipsum, dolor > sit & amet!");
    assert_eq!(result, "lorem ipsum, dolor > sit & amet!");
}

#[test]
fn should_return_empty_on_empty_input() {
    let result = strip_tags("");
    assert_eq!(result, "");
}

#[test]
fn should_restore_bare_angle_before_any_whitespace_as_space() {
    // The restored pair is the literal `< `, whatever the whitespace was.
    let result = strip_tags("<\tdiv and <\nspan");
    assert_eq!(result, "< div and < span");
}

#[test]
fn should_swallow_unterminated_tag() {
    let result = strip_tags("lorem <div class");
    assert_eq!(result, "lorem ");
}

#[test]
fn should_swallow_unterminated_comment() {
    let result = strip_tags("lorem <!-- ipsum <b>dolor</b>");
    assert_eq!(result, "lorem ");
}

#[test]
fn should_swallow_unterminated_quote() {
    let result = strip_tags("<a href='x>z");
    assert_eq!(result, "");
}

#[test]
fn should_close_comment_at_first_dashes_before_gt() {
    let result = strip_tags("<!-->rest");
    assert_eq!(result, "rest");
}

#[test]
fn should_be_idempotent_on_markup() {
    let once = strip_tags("a <b>bold</b> < c> <!-- x --> d");
    let twice = strip_tags(&once);
    assert_eq!(twice, once);
}

#[test]
fn should_scan_character_by_character() {
    let mut sc = Scanner::new();
    for c in "a<b>c <!--d-->e".chars() {
        sc.feed(c);
    }
    assert_eq!(sc.into_output(), "ac e");
}

#[test]
fn should_be_idempotent_on_restored_angles() {
    let once = strip_tags("< a> and <\tb>");
    assert_eq!(once, "< a> and < b>");
    let twice = strip_tags(&once);
    assert_eq!(twice, once);
}
