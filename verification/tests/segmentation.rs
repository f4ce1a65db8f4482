use tqsm::segment;

#[test]
fn test_basics() {
    let sents = segment("en", "This is Dr. Watson. Thanks for having me!").unwrap();
    println!("{}", sents.join("\n"));
    let sents = segment("en", "Roses Are Red. Violets Are Blue!").unwrap();
    println!("{}", sents.join("\n"));
    let sents = segment("ar", "هذا هو د. سالم. ماذا تقدمون للعشاء اليوم؟").unwrap();
    println!("{}", sents.join("\n"));
    let sents = segment(
        "ru", "Шухов как был в ватных брюках, не снятых на ночь (повыше левого колена их тоже был пришит затасканный, погрязневший лоскут, и на нем выведен черной, уже поблекшей краской номер Щ-854), надел телогрейку…"
    ).unwrap();
    println!("{}", sents.join("\n"));

    let sents = segment("en", "I work for the U.S. Government in Virginia.").unwrap();
    println!("{}", sents.join("\n"));
    assert_eq!(sents.len(), 1);

    let sents = segment("en", "He teaches science (He previously worked for 5 years as an engineer.) at the local University").unwrap();
    println!("{}", sents.join("\n"));
    assert_eq!(sents.len(), 1);

    let sents = segment("en", "Thus increasing the desire for political reform both in Lancashire and in the country at large.[7][8] This was a serious misdemeanour,[16] encouraging them to declare the assembly illegal as soon as it was announced on 31 July.[17][18] The radicals sought a second opinion on the meeting's legality.").unwrap();
    println!("{}", sents.join("\n"));
    assert_eq!(sents.len(), 3);
}

#[test]
fn test_fr() {
    let sents = segment("fr", "Après avoir été l'un des acteurs du projet génome humain, le Genoscope met aujourd'hui le cap vers la génomique environnementale. L'exploitation des données de séquences, prolongée par l'identification expérimentale des fonctions biologiques, notamment dans le domaine de la biocatalyse, ouvrent des perspectives de développements en biotechnologie industrielle.").unwrap();
    assert_eq!(sents.len(), 2);
}

#[test]
fn test_it_can_find_zh() {
    let sents = segment("zh", "安永已聯繫周怡安親屬，協助辦理簽證相關事宜，周怡安家屬1月1日晚間搭乘東方航空班機抵達上海，他們步入入境大廳時 神情落寞、不發一語。周怡安來自台中，去年剛從元智大學畢業，同年9月加入安永。").unwrap();
    assert_eq!(sents.len(), 2);
}

#[test]
fn empty_text_every_language() {
    let codes = [
        "am", "ar", "bg", "bn", "ca", "da", "de", "el", "en", "es", "fi", "fr", "gu", "hi", "hy",
        "it", "kk", "kn", "ml", "mr", "my", "nl", "or", "pa", "pl", "pt", "ru", "sk", "ta", "te",
    ];
    for code in codes {
        let sents = segment(code, "").unwrap();
        assert!(sents.is_empty(), "language {code} gave {sents:?}");
    }
}

#[test]
fn two_sentences_after_abbreviation() {
    let sents = segment("en", "This is Dr. Watson. Thanks for having me!").unwrap();
    assert_eq!(sents.len(), 2);
    assert_eq!(sents[0], "This is Dr. Watson.");
    assert_eq!(sents[1], "Thanks for having me!");
}

#[test]
fn exclamation_word_does_not_split() {
    let sents = segment("en", "I love Yahoo! It is great.").unwrap();
    assert_eq!(sents.len(), 1);
}

#[test]
fn email_address_is_not_a_boundary() {
    let sents = segment("en", "Email X.Y@example.com today. Thanks.").unwrap();
    assert_eq!(sents.len(), 2);
    assert_eq!(sents[0], "Email X.Y@example.com today.");
}

#[test]
fn quoted_period_is_suppressed() {
    let sents = segment("en", "He said \"Stop. Now\" and left. Fine.").unwrap();
    assert_eq!(sents.len(), 2);
    assert_eq!(sents[0], "He said \"Stop. Now\" and left.");
}

#[test]
fn german_period_before_closing_quote_snaps() {
    let sents = segment("de", "„Er kommt. Morgen.“ Danach ging sie.").unwrap();
    assert_eq!(sents.len(), 2);
    assert!(sents[0].ends_with('“'), "got {sents:?}");
}

#[test]
fn german_month_after_day_number() {
    let sents = segment("de", "Der Termin ist am 3. Januar 2020 geplant.").unwrap();
    assert_eq!(sents.len(), 1);
    let sents = segment("de", "Der Termin ist am 3. januar 2020 geplant.").unwrap();
    assert_eq!(sents.len(), 1);
    let sents = segment("de", "Der Satz endet hier am 3. Danach kommt mehr.").unwrap();
    assert_eq!(sents.len(), 2);
}

#[test]
fn finnish_month_after_day_number() {
    let sents = segment("fi", "Kokous on 3. tammikuu 2020.").unwrap();
    assert_eq!(sents.len(), 1);
}

#[test]
fn danish_skips_symbols_before_lowercase() {
    let sents = segment("da", "Mødet er den 3. og varer en time.").unwrap();
    assert_eq!(sents.len(), 1);
}

#[test]
fn russian_cyrillic_continuation() {
    let sents = segment("ru", "Всё хорошо.и так далее.").unwrap();
    assert_eq!(sents.len(), 1);
    let sents = segment("en", "Всё хорошо.и так далее.").unwrap();
    assert_eq!(sents.len(), 2);
}

#[test]
fn greek_semicolon_is_a_terminator() {
    let sents = segment("el", "Τι κάνεις; Καλά είμαι.").unwrap();
    assert_eq!(sents.len(), 2);
}

#[test]
fn armenian_period_is_not_a_terminator() {
    let sents = segment("hy", "Ես գնում եմ. տուն").unwrap();
    assert_eq!(sents.len(), 1);
    let sents = segment("hy", "Բարեւ աշխարհ։ Ինչպես ես։").unwrap();
    assert_eq!(sents.len(), 2);
}

#[test]
fn italian_elided_article_before_abbreviation() {
    let sents = segment("it", "Parlo dell'es. di prima.").unwrap();
    assert_eq!(sents.len(), 1);
}

#[test]
fn bracket_references_extend_the_sentence() {
    let sents =
        segment("en", "It was late.[7][8] The meeting went on. Nothing more happened.").unwrap();
    assert_eq!(sents.len(), 3);
    assert_eq!(sents[0], "It was late.[7][8]");
}

#[test]
fn paragraphs_are_separated_by_a_marker() {
    let sents = segment("en", "First one. Second one.\n\nThird one. Fourth one.").unwrap();
    assert_eq!(
        sents,
        vec!["First one.", "Second one.", "\n\n", "Third one.", "Fourth one."]
    );
}

#[test]
fn quoted_span_crosses_a_newline() {
    let sents = segment("en", "He said \"Wait.\nNow\" and left. Done.").unwrap();
    assert_eq!(sents.len(), 2);
}

#[test]
fn ellipsis_ends_a_sentence() {
    let sents = segment("en", "Wait… Then go.").unwrap();
    assert_eq!(sents.len(), 2);
    assert_eq!(sents[0], "Wait…");
}

#[test]
fn devanagari_danda_ends_a_sentence() {
    let sents = segment("hi", "यह पहला वाक्य है। यह दूसरा है।").unwrap();
    assert_eq!(sents.len(), 2);
}

#[test]
fn unknown_language_fails_with_the_identifier() {
    let err = segment("xx", "Hello there.").unwrap_err();
    assert_eq!(err.code, "xx");
    assert_eq!(err.message(), "Language `xx` is not supported");
}

#[test]
fn fallback_chain_of_depth_two_resolves() {
    let sents = segment("yue", "安永已聯繫周怡安親屬。他們步入入境大廳。").unwrap();
    assert_eq!(sents.len(), 2);
}
