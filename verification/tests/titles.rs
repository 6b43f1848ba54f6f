//! Names and titles as the lyric services know them.

use overseer::titles::{
    clean_album, clean_title, is_credit, is_edition, primary_artist, strip_dash_suffix, strip_noise_parens,
};

#[test]
fn primary_artist_splits() {
    assert_eq!(primary_artist("Kanye West & Lauryn Hill"), "Kanye West");
    assert_eq!(primary_artist("Travis Scott"), "Travis Scott");
    assert_eq!(primary_artist("Drake feat. Rihanna"), "Drake");
    assert_eq!(primary_artist("A, B, C"), "A");
    assert_eq!(primary_artist("Tyler, The Creator"), "Tyler"); // known caveat
}

#[test]
fn clean_title_strips_credits_and_editions() {
    assert_eq!(clean_title("FE!N (feat. Playboi Carti)"), "FE!N");
    assert_eq!(clean_title("Song [feat. X] "), "Song");
    assert_eq!(clean_title("Tune - Remastered 2011"), "Tune");
    assert_eq!(clean_title("Track - Single"), "Track");
    // Real parentheses that aren't credit/edition noise survive (kept
    // conservative so "(Alive)" etc. are never mistaken for "(Live)").
    assert_eq!(clean_title("Marvins Room (Live)"), "Marvins Room (Live)");
    assert_eq!(clean_title("Hello (Acoustic)"), "Hello (Acoustic)");
    // Mix/edit suffixes are edition noise (broke "Shook Ones, Pt. II (Mixed)").
    assert_eq!(clean_title("Shook Ones, Pt. II (Mixed)"), "Shook Ones, Pt. II");
    assert_eq!(clean_title("Song (Club Mix)"), "Song");
    assert_eq!(clean_album("J.PERIOD Presents CLASS OF 95 (DJ Mix)"), "J.PERIOD Presents CLASS OF 95");
}

#[test]
fn clean_album_strips_deluxe() {
    assert_eq!(clean_album("BULLY - DELUXE"), "BULLY");
    assert_eq!(clean_album("Utopia (Deluxe)"), "Utopia");
    assert_eq!(clean_album("Nothing Was the Same (Deluxe)"), "Nothing Was the Same");
}

#[test]
fn strip_noise_parens_is_utf8_safe() {
    // Must not panic or corrupt multibyte input.
    assert_eq!(strip_noise_parens("¥$ café (feat. Ty)"), "¥$ café ");
    assert_eq!(strip_noise_parens("naïve"), "naïve");
}

#[test]
fn lead_artist_ignores_case_and_trims() {
    assert_eq!(primary_artist("Drake FEAT. Rihanna"), "Drake");
    assert_eq!(primary_artist("  Sade  "), "  Sade  ");
}

#[test]
fn lead_artist_is_cut_by_characters() {
    assert_eq!(primary_artist("ẞẞ & B"), "ẞẞ");
    assert_eq!(primary_artist("İİİ & B"), "İİİ");
    assert_eq!(primary_artist("Beyoncé Featuring Jay-Z"), "Beyoncé");
    assert_eq!(primary_artist(" & B"), "");
}

#[test]
fn lead_artist_is_its_own_lead() {
    for name in ["A x B & C", "Drake FEAT. Rihanna", "A , B", "Tyler, The Creator", "a / b / c"] {
        let lead = primary_artist(name);
        assert_eq!(primary_artist(&lead), lead);
    }
}

#[test]
fn noise_is_told_by_its_words() {
    assert!(is_credit("feat. someone"));
    assert!(!is_credit("live"));
    assert!(is_edition("deluxe edition"));
    assert!(is_edition("live"));
    assert!(!is_edition("reprise"));
}

#[test]
fn an_open_bracket_stays() {
    assert_eq!(strip_noise_parens("Half (feat. X"), "Half (feat. X");
    assert_eq!(strip_noise_parens("Half [intro] tail"), "Half [intro] tail");
}

#[test]
fn a_dash_suffix_goes_only_when_it_is_noise() {
    assert_eq!(strip_dash_suffix("Tune - Remastered 2011"), "Tune");
    assert_eq!(strip_dash_suffix("Love - Hate"), "Love - Hate");
    assert_eq!(strip_dash_suffix("No dash"), "No dash");
}

#[test]
fn cleaning_twice_changes_nothing_more() {
    for s in ["FE!N (feat. Playboi Carti)", "Tune - Remastered 2011", "Plain", "Hello (Acoustic)"] {
        let once = clean_title(s);
        assert_eq!(clean_title(&once), once);
    }
}
