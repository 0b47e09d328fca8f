use srs::tokenizer::Token;
use srs::tokenizer::Token::{LocalDomainSeparator, SRSSeparator, Text, SRS};
use srs::tokenizer::Tokenizer;

fn assert_tokenize(input: &str, expected: Vec<Token>) {
    let mut t = Tokenizer::tokenize(input, "=", "@");
    let result: Vec<Token> = t.tokens();

    if result != expected {
        println!("Not equal:\n\tE: {:?}\n\tR: {:?}", expected, result);
    }
    assert!(result == expected);
}

#[test]
fn it_tokenizes_complex_examples() {
    assert_tokenize(
        "SOME=foo==lala@user@example.com",
        vec![
            Text("SOME"),
            SRSSeparator,
            Text("foo"),
            SRSSeparator,
            SRSSeparator,
            Text("lala"),
            LocalDomainSeparator,
            Text("user"),
            LocalDomainSeparator,
            Text("example.com"),
        ],
    );
}

#[test]
fn it_tokenizes_empty_string() {
    assert_tokenize("", vec![]);
}

#[test]
fn it_tokenizes_without_local_domain_separator() {
    assert_tokenize("user==foo", vec![Text("user"), SRSSeparator, SRSSeparator, Text("foo")]);
}

#[test]
fn it_parses_srs_tokens() {
    assert_tokenize("SRS1=something", vec![SRS(1), SRSSeparator, Text("something")]);
    assert_tokenize("SRS0=something", vec![SRS(0), SRSSeparator, Text("something")]);
    assert_tokenize("something=SRS0", vec![Text("something"), SRSSeparator, SRS(0)]);
    assert_tokenize("something=SRS1", vec![Text("something"), SRSSeparator, SRS(1)]);
}

#[test]
fn it_doesnt_parse_srs_substring() {
    assert_tokenize("SRS1substring=foo", vec![Text("SRS1substring"), SRSSeparator, Text("foo")]);
}

#[test]
fn it_hands_out_tokens_one_by_one() {
    let mut t = Tokenizer::tokenize("SRS0+a@b", "+", "@");
    assert_eq!(t.offset(), 0);
    assert_eq!(t.next_token(), Some(SRS(0)));
    assert_eq!(t.offset(), 4);
    assert_eq!(t.next_token(), Some(SRSSeparator));
    assert_eq!(t.next_token(), Some(Text("a")));
    assert_eq!(t.next_token(), Some(LocalDomainSeparator));
    assert_eq!(t.next_token(), Some(Text("b")));
    assert_eq!(t.offset(), 8);
    assert_eq!(t.next_token(), None);
    assert_eq!(t.next_token(), None);
    assert_eq!(t.offset(), 8);
}

#[test]
fn it_cuts_only_at_separators_of_one_character() {
    let mut t = Tokenizer::tokenize("a==b@c", "==", "");
    assert_eq!(t.tokens(), vec![Text("a==b@c")]);
    let mut t = Tokenizer::tokenize("a=b=c", "=", "=");
    assert_eq!(t.tokens(), vec![Text("a"), SRSSeparator, Text("b"), SRSSeparator, Text("c")]);
    let mut t = Tokenizer::tokenize("\u{e9}\u{2192}\u{e9}", "\u{2192}", "@");
    assert_eq!(t.tokens(), vec![Text("\u{e9}"), SRSSeparator, Text("\u{e9}")]);
}

#[test]
fn it_gives_the_text_of_each_token() {
    let t = Tokenizer::tokenize("x", "=", "@");
    assert_eq!(t.text_of_token(&SRSSeparator), "=");
    assert_eq!(t.text_of_token(&LocalDomainSeparator), "@");
    assert_eq!(t.text_of_token(&Text("some.text")), "some.text");
    assert_eq!(t.text_of_token(&SRS(0)), "0");
    assert_eq!(t.text_of_token(&SRS(1)), "1");
    assert_eq!(t.text_of_token(&SRS(10)), "10");
    assert_eq!(t.text_of_token(&SRS(4096)), "4096");
    assert_eq!(t.text_of_token(&SRS(usize::MAX)), usize::MAX.to_string());
}

#[test]
fn it_hands_out_the_text_that_a_token_was_cut_from() {
    let mut t = Tokenizer::tokenize("SRS1=\u{e9}t\u{e9}@b", "=", "@");
    assert_eq!(t.rest(), "SRS1=\u{e9}t\u{e9}@b");
    assert_eq!(t.next_token_text(), Some((SRS(1), "SRS1")));
    assert_eq!(t.next_token_text(), Some((SRSSeparator, "=")));
    assert_eq!(t.rest(), "\u{e9}t\u{e9}@b");
    assert_eq!(t.next_token_text(), Some((Text("\u{e9}t\u{e9}"), "\u{e9}t\u{e9}")));
    assert_eq!(t.offset(), 8);
    assert_eq!(t.next_token_text(), Some((LocalDomainSeparator, "@")));
    assert_eq!(t.next_token_text(), Some((Text("b"), "b")));
    assert_eq!(t.rest(), "");
    assert_eq!(t.next_token_text(), None);
}

#[test]
fn it_cuts_a_long_input() {
    let mut input = String::new();
    for _ in 0..100_000 {
        input.push_str("ab=");
    }
    let mut t = Tokenizer::tokenize(&input, "=", "@");
    let all = t.tokens();
    assert_eq!(all.len(), 200_000);
    assert_eq!(all[0], Text("ab"));
    assert_eq!(all[199_999], SRSSeparator);
}
