use colorparse::parse;
use colorparse::resolve;
use colorparse::Color;
use colorparse::ColorResolution;
use colorparse::Error;
use colorparse::Style;

#[test]
fn test_parse_style() {
    assert_eq!(parse(""), Ok(Style::new()));
    assert_eq!(parse("  "), Ok(Style::new()));
    assert_eq!(parse("normal"), Ok(Style::new()));
    assert_eq!(parse("normal normal"), Ok(Style::new()));
    assert_eq!(parse("-1 normal"), Ok(Style::new()));
    assert_eq!(parse("red"), Ok(Color::Red.normal()));
    assert_eq!(parse("red blue"), Ok(Color::Red.on(Color::Blue)));
    assert_eq!(parse("   red blue   "), Ok(Color::Red.on(Color::Blue)));
    assert_eq!(parse("red\tblue"), Ok(Color::Red.on(Color::Blue)));
    assert_eq!(parse("red\n blue"), Ok(Color::Red.on(Color::Blue)));
    assert_eq!(parse("red\r\n blue"), Ok(Color::Red.on(Color::Blue)));
    assert_eq!(parse("blue red"), Ok(Color::Blue.on(Color::Red)));
    assert_eq!(parse("yellow green"), Ok(Color::Yellow.on(Color::Green)));
    assert_eq!(parse("white magenta"), Ok(Color::White.on(Color::Magenta)));
    assert_eq!(parse("black cyan"), Ok(Color::Black.on(Color::Cyan)));
    assert_eq!(parse("red normal"), Ok(Color::Red.normal()));
    assert_eq!(parse("normal red"), Ok(Style::new().on(Color::Red)));
    assert_eq!(parse("0"), Ok(Color::Indexed(0).normal()));
    assert_eq!(parse("8 3"), Ok(Color::Indexed(8).on(Color::Indexed(3))));
    assert_eq!(parse("255"), Ok(Color::Indexed(255).normal()));
    assert_eq!(parse("255 -1"), Ok(Color::Indexed(255).normal()));
    assert_eq!(parse("#000000"), Ok(Color::Rgb(0, 0, 0).normal()));
    assert_eq!(parse("#204060"), Ok(Color::Rgb(0x20, 0x40, 0x60).normal()));

    assert_eq!(parse("bold cyan white"), Ok(Color::Cyan.on(Color::White).bold()));
    assert_eq!(parse("bold cyan nobold white"), Ok(Color::Cyan.on(Color::White)));
    assert_eq!(
        parse("bold cyan reverse white nobold"),
        Ok(Color::Cyan.on(Color::White).reverse())
    );
    assert_eq!(
        parse("bold cyan ul white dim"),
        Ok(Color::Cyan.on(Color::White).bold().underline().dimmed())
    );
    assert_eq!(
        parse("blink #050505 white"),
        Ok(Color::Rgb(5, 5, 5).on(Color::White).blink())
    );
}

#[test]
fn test_parse_style_err() {
    fn extra(s: &str, word: &str) -> Result<Style, Error> {
        Err(Error::ExtraColor(s.to_string(), word.to_string()))
    }
    fn unknown(s: &str, word: &str) -> Result<Style, Error> {
        Err(Error::UnknownWord(s.to_string(), word.to_string()))
    }

    assert_eq!(parse("red blue green"), extra("red blue green", "green"));
    assert_eq!(parse("red blue 123"), extra("red blue 123", "123"));
    assert_eq!(parse("123 red blue"), extra("123 red blue", "blue"));
    assert_eq!(parse("red blue normal"), extra("red blue normal", "normal"));
    assert_eq!(parse("red blue -1"), extra("red blue -1", "-1"));
    assert_eq!(
        parse("yellow green #abcdef"),
        extra("yellow green #abcdef", "#abcdef")
    );
    assert_eq!(
        parse("#123456 #654321 #abcdef"),
        extra("#123456 #654321 #abcdef", "#abcdef")
    );
    assert_eq!(parse("bold red blue green"), extra("bold red blue green", "green"));
    assert_eq!(parse("red bold blue green"), extra("red bold blue green", "green"));
    assert_eq!(parse("red blue bold green"), extra("red blue bold green", "green"));
    assert_eq!(parse("red blue green bold"), extra("red blue green bold", "green"));

    assert_eq!(parse("256"), unknown("256", "256"));
    assert_eq!(parse("-2"), unknown("-2", "-2"));
    assert_eq!(parse("-"), unknown("-", "-"));
    assert_eq!(parse("- 1"), unknown("- 1", "-"));
    assert_eq!(parse("123-1"), unknown("123-1", "123-1"));
    assert_eq!(parse("blue1"), unknown("blue1", "blue1"));
    assert_eq!(parse("blue-1"), unknown("blue-1", "blue-1"));
    assert_eq!(parse("#"), unknown("#", "#"));
    assert_eq!(parse("#12345"), unknown("#12345", "#12345"));
    assert_eq!(parse("#1234567"), unknown("#1234567", "#1234567"));
    assert_eq!(parse("#bcdefg"), unknown("#bcdefg", "#bcdefg"));
    assert_eq!(parse("#blue"), unknown("#blue", "#blue"));
    assert_eq!(parse("blue#123456"), unknown("blue#123456", "blue#123456"));
}

#[test]
fn whitespace_only_inputs_give_default_style() {
    assert_eq!(parse(""), Ok(Style::new()));
    assert_eq!(parse(" \t\r\n "), Ok(Style::new()));
    assert_eq!(parse("\u{0b}\u{0c}"), Ok(Style::new()));
    assert_eq!(parse("\u{a0}\u{2003}\u{3000}"), Ok(Style::new()));
}

#[test]
fn unicode_whitespace_separates_words() {
    assert_eq!(parse("red\u{a0}blue"), Ok(Color::Red.on(Color::Blue)));
    assert_eq!(parse("red\u{2028}blue"), Ok(Color::Red.on(Color::Blue)));
}

#[test]
fn two_colors_keep_their_slots_around_attributes() {
    let expected = Ok(Color::Red.on(Color::Blue).underline());
    assert_eq!(parse("bold red ul blue nobold"), expected);
    assert_eq!(parse("red blue ul"), Ok(Color::Red.on(Color::Blue).underline()));
    assert_eq!(parse("dim nodim red noul blue"), Ok(Color::Red.on(Color::Blue)));
}

#[test]
fn later_attribute_occurrence_wins() {
    assert_eq!(parse("bold nobold bold red"), Ok(Color::Red.normal().bold()));
    assert_eq!(parse("ul blink noblink noul"), Ok(Style::new()));
    assert_eq!(parse("reverse noreverse"), Ok(Style::new()));
}

#[test]
fn case_insensitive_keywords_and_colors() {
    assert_eq!(parse("Bold RED Blue"), parse("bold red blue"));
    assert_eq!(parse("NOBOLD Cyan"), parse("nobold cyan"));
    assert_eq!(parse("NORMAL Red"), parse("normal red"));
    assert_eq!(parse("#AbCdEf"), Ok(Color::Rgb(0xab, 0xcd, 0xef).normal()));
    // the offending word keeps its original case in the error
    assert_eq!(
        parse("BLUE1"),
        Err(Error::UnknownWord("BLUE1".to_string(), "BLUE1".to_string()))
    );
    assert_eq!(
        parse("Red Blue GREEN"),
        Err(Error::ExtraColor("Red Blue GREEN".to_string(), "GREEN".to_string()))
    );
}

#[test]
fn numeric_index_boundaries() {
    assert_eq!(parse("0"), Ok(Color::Indexed(0).normal()));
    assert_eq!(parse("255"), Ok(Color::Indexed(255).normal()));
    assert_eq!(parse("00000255"), Ok(Color::Indexed(255).normal()));
    assert_eq!(parse("256"), Err(Error::UnknownWord("256".to_string(), "256".to_string())));
    assert_eq!(
        parse("99999999999999999999"),
        Err(Error::UnknownWord(
            "99999999999999999999".to_string(),
            "99999999999999999999".to_string()
        ))
    );
}

#[test]
fn non_ascii_word_is_reported_verbatim() {
    assert_eq!(
        parse("caf\u{e9}"),
        Err(Error::UnknownWord("caf\u{e9}".to_string(), "caf\u{e9}".to_string()))
    );
}

#[test]
fn resolve_classifies_single_words() {
    assert_eq!(resolve("magenta"), ColorResolution::ResolvedColor(Color::Magenta));
    assert_eq!(resolve("MAGENTA"), ColorResolution::ResolvedColor(Color::Magenta));
    assert_eq!(resolve("normal"), ColorResolution::NoColor);
    assert_eq!(resolve("-1"), ColorResolution::NoColor);
    assert_eq!(resolve("17"), ColorResolution::ResolvedColor(Color::Indexed(17)));
    assert_eq!(resolve("#204060"), ColorResolution::ResolvedColor(Color::Rgb(0x20, 0x40, 0x60)));
    assert_eq!(resolve("256"), ColorResolution::NotAColor);
    assert_eq!(resolve("#12345"), ColorResolution::NotAColor);
    assert_eq!(resolve("bold"), ColorResolution::NotAColor);
    assert_eq!(resolve(""), ColorResolution::NotAColor);
}

#[test]
fn builders_set_single_fields() {
    let st = Style::new();
    assert_eq!(st.foreground, None);
    assert_eq!(st.background, None);
    assert!(!st.bold && !st.dim && !st.underline && !st.blink && !st.reverse);
    let st = st.fg(Color::Green).on(Color::Black).bold().dimmed().underline().blink().reverse();
    assert_eq!(st.foreground, Some(Color::Green));
    assert_eq!(st.background, Some(Color::Black));
    assert!(st.bold && st.dim && st.underline && st.blink && st.reverse);
    assert_eq!(st.with_bold(false).bold, false);
    assert_eq!(st.with_dim(false).dim, false);
    assert_eq!(st.with_underline(false).underline, false);
    assert_eq!(st.with_blink(false).blink, false);
    assert_eq!(st.with_reverse(false).reverse, false);
}
