use genshin_dictionary::romaji::romaji_to_hiragana;

#[test]
fn test() {
    assert_eq!(romaji_to_hiragana("kaa", true), "かー");
}

#[test]
fn vowels() {
    assert_eq!(romaji_to_hiragana("aiueo", false), "あいうえお");
    assert_eq!(romaji_to_hiragana("aiueo", true), "あいうえお");
    assert_eq!(romaji_to_hiragana("", true), "");
}

#[test]
fn repeated_vowel_with_and_without_the_long_vowel_mark() {
    assert_eq!(romaji_to_hiragana("kaa", false), "かあ");
    assert_eq!(romaji_to_hiragana("aa", true), "あー");
    assert_eq!(romaji_to_hiragana("aaa", true), "あーー");
    assert_eq!(romaji_to_hiragana("ooiie", true), "おーいーえ");
    assert_eq!(romaji_to_hiragana("toukyou", true), "とうきょう");
    assert_eq!(romaji_to_hiragana("ai", true), "あい");
}

#[test]
fn the_long_vowel_mark_asks_for_a_lower_case_neighbour() {
    assert_eq!(romaji_to_hiragana("aA", true), "あー");
    assert_eq!(romaji_to_hiragana("Aa", true), "ああ");
    assert_eq!(romaji_to_hiragana("KAA", true), "かあ");
}

#[test]
fn a_vowel_behind_a_character_outside_ascii() {
    assert_eq!(romaji_to_hiragana("éa", true), "あ");
    assert_eq!(romaji_to_hiragana("あa", true), "あ");
}

#[test]
fn plain_syllables() {
    assert_eq!(romaji_to_hiragana("kakikukeko", false), "かきくけこ");
    assert_eq!(romaji_to_hiragana("sasisuseso", false), "さしすせそ");
    assert_eq!(romaji_to_hiragana("tatituteto", false), "たてぃとぅてと");
    assert_eq!(romaji_to_hiragana("naninuneno", false), "なにぬねの");
    assert_eq!(romaji_to_hiragana("hahihuheho", false), "はひふへほ");
    assert_eq!(romaji_to_hiragana("fafifufefo", false), "ふぁふぃふふぇふぉ");
    assert_eq!(romaji_to_hiragana("mamimumemo", false), "まみむめも");
    assert_eq!(romaji_to_hiragana("yayuyo", false), "やゆよ");
    assert_eq!(romaji_to_hiragana("rarirurero", false), "らりるれろ");
    assert_eq!(romaji_to_hiragana("wawiwewo", false), "わうぃうぇを");
    assert_eq!(romaji_to_hiragana("gagigugego", false), "がぎぐげご");
    assert_eq!(romaji_to_hiragana("zazizuzezo", false), "ざじずぜぞ");
    assert_eq!(romaji_to_hiragana("jajijujejo", false), "じゃじじゅじぇじょ");
    assert_eq!(romaji_to_hiragana("dadidudedo", false), "だでぃどぅでど");
    assert_eq!(romaji_to_hiragana("babibubebo", false), "ばびぶべぼ");
    assert_eq!(romaji_to_hiragana("vavivuvevo", false), "ゔぁゔぃゔゔぇゔぉ");
    assert_eq!(romaji_to_hiragana("papipupepo", false), "ぱぴぷぺぽ");
}

#[test]
fn syllables_of_three_letters() {
    assert_eq!(romaji_to_hiragana("kyakyukyo", false), "きゃきゅきょ");
    assert_eq!(romaji_to_hiragana("shashishushesho", false), "しゃししゅしぇしょ");
    assert_eq!(romaji_to_hiragana("syasyusyo", false), "しゃしゅしょ");
    assert_eq!(romaji_to_hiragana("tsatsitsutsetso", false), "つぁつぃつつぇつぉ");
    assert_eq!(romaji_to_hiragana("tyatyutyo", false), "ちゃちゅちょ");
    assert_eq!(romaji_to_hiragana("chachichuchecho", false), "ちゃちちゅちぇちょ");
    assert_eq!(romaji_to_hiragana("nyanyunyo", false), "にゃにゅにょ");
    assert_eq!(romaji_to_hiragana("hyahyuhyo", false), "ひゃひゅひょ");
    assert_eq!(romaji_to_hiragana("myamyumyo", false), "みゃみゅみょ");
    assert_eq!(romaji_to_hiragana("ryaryuryo", false), "りゃりゅりょ");
    assert_eq!(romaji_to_hiragana("gyagyugyo", false), "ぎゃぎゅぎょ");
    assert_eq!(romaji_to_hiragana("zyazyuzyo", false), "じゃじゅじょ");
    assert_eq!(romaji_to_hiragana("byabyubyo", false), "びゃびゅびょ");
    assert_eq!(romaji_to_hiragana("pyapyupyo", false), "ぴゃぴゅぴょ");
}

#[test]
fn three_letters_without_a_syllable_write_nothing() {
    assert_eq!(romaji_to_hiragana("kyi", false), "");
    assert_eq!(romaji_to_hiragana("kyeka", false), "か");
    assert_eq!(romaji_to_hiragana("kyxa", false), "あ");
}

#[test]
fn doubled_consonants() {
    assert_eq!(romaji_to_hiragana("kitte", false), "きって");
    assert_eq!(romaji_to_hiragana("gakkou", false), "がっこう");
    assert_eq!(romaji_to_hiragana("zasshi", false), "ざっし");
    assert_eq!(romaji_to_hiragana("konnichiwa", false), "こんにちわ");
    assert_eq!(romaji_to_hiragana("jja", false), "じゃ");
    assert_eq!(romaji_to_hiragana("ppaddovvuyyo", false), "っぱっどっゔっよ");
    assert_eq!(romaji_to_hiragana("ppyddvvyy", false), "っっっ");
}

#[test]
fn the_syllabic_n() {
    assert_eq!(romaji_to_hiragana("san", false), "さん");
    assert_eq!(romaji_to_hiragana("n", false), "ん");
    assert_eq!(romaji_to_hiragana("kanpai", false), "かんぱい");
    assert_eq!(romaji_to_hiragana("nn", false), "んん");
    assert_eq!(romaji_to_hiragana("n-a", false), "んあ");
}

#[test]
fn a_consonant_at_the_end_writes_nothing() {
    assert_eq!(romaji_to_hiragana("k", false), "");
    assert_eq!(romaji_to_hiragana("kak", false), "か");
    assert_eq!(romaji_to_hiragana("ky", false), "");
    assert_eq!(romaji_to_hiragana("kash", false), "か");
    assert_eq!(romaji_to_hiragana("ny", false), "");
}

#[test]
fn letters_outside_the_table_are_passed_over() {
    assert_eq!(romaji_to_hiragana("x", false), "");
    assert_eq!(romaji_to_hiragana("l q 1", false), "");
    assert_eq!(romaji_to_hiragana("ka-ki", false), "かき");
    assert_eq!(romaji_to_hiragana("kxa", false), "あ");
    assert_eq!(romaji_to_hiragana("yi ye wu", false), "いえう");
}

#[test]
fn capital_letters_read_like_small_ones() {
    assert_eq!(romaji_to_hiragana("Riyue", false), "りゆえ");
    assert_eq!(romaji_to_hiragana("MONDO", false), "もんど");
    assert_eq!(romaji_to_hiragana("SHa", false), "しゃ");
    assert_eq!(romaji_to_hiragana("Inazuma", true), "いなずま");
}
