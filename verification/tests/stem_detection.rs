use stem_engine::stem_detection::{
    clean_filename, detect_stem_name, stem_name_of, stem_name_with, to_chars,
};

#[test]
fn test_detect_stem_name_basic() {
    assert_eq!(detect_stem_name("vocals.wav"), "Vocals");
    assert_eq!(detect_stem_name("drums.mp3"), "Drums");
    assert_eq!(detect_stem_name("bass.flac"), "Bass");
}

#[test]
fn test_detect_stem_name_with_dash() {
    assert_eq!(detect_stem_name("Song Name - Vocals.wav"), "Vocals");
    assert_eq!(detect_stem_name("Amazing Track - Drums.mp3"), "Drums");
}

#[test]
fn test_detect_stem_name_with_underscore() {
    assert_eq!(detect_stem_name("song_vocals.wav"), "Vocals");
    assert_eq!(detect_stem_name("track_drums.mp3"), "Drums");
}

#[test]
fn stem_detection_test_detect_stem_name_with_parentheses() {
    assert_eq!(detect_stem_name("Song (Vocals).wav"), "Vocals");
    assert_eq!(detect_stem_name("Track (Drums).mp3"), "Drums");
}

#[test]
fn stem_detection_test_detect_stem_name_case_insensitive() {
    assert_eq!(detect_stem_name("VOCALS.wav"), "Vocals");
    assert_eq!(detect_stem_name("DrUmS.mp3"), "Drums");
}

#[test]
fn stem_detection_test_detect_stem_name_all_keywords() {
    let test_cases = vec![
        ("vocals.wav", "Vocals"),
        ("vox.wav", "Vox"),
        ("drums.wav", "Drums"),
        ("bass.wav", "Bass"),
        ("keys.wav", "Keys"),
        ("keyboard.wav", "Keyboard"),
        ("piano.wav", "Piano"),
        ("guitar.wav", "Guitar"),
        ("synth.wav", "Synth"),
        ("pad.wav", "Pad"),
        ("strings.wav", "Strings"),
        ("orchestra.wav", "Orchestra"),
        ("click.wav", "Click"),
        ("guide.wav", "Guide"),
    ];

    for (input, expected) in test_cases {
        assert_eq!(detect_stem_name(input), expected);
    }
}

#[test]
fn test_clean_filename() {
    assert_eq!(clean_filename("vocals_01"), "Vocals");
    assert_eq!(clean_filename("drums_02_"), "Drums");
    assert_eq!(clean_filename("custom_name"), "Custom_name");
}

#[test]
fn test_detect_stem_name_with_dash_separator() {
    assert_eq!(detect_stem_name("Song Name - Vocals.wav"), "Vocals");
    assert_eq!(detect_stem_name("Amazing Song - Drums.mp3"), "Drums");
    assert_eq!(detect_stem_name("Track 01 - Bass.flac"), "Bass");
}

#[test]
fn test_detect_stem_name_with_underscore_separator() {
    assert_eq!(detect_stem_name("Song_Vocals.wav"), "Vocals");
    assert_eq!(detect_stem_name("Track_Drums.mp3"), "Drums");
    assert_eq!(detect_stem_name("Music_Bass.flac"), "Bass");
}

#[test]
fn tests_test_detect_stem_name_with_parentheses() {
    assert_eq!(detect_stem_name("Song Name (Vocals).wav"), "Vocals");
    assert_eq!(detect_stem_name("Track (Drums).mp3"), "Drums");
    assert_eq!(detect_stem_name("Music (Bass).flac"), "Bass");
}

#[test]
fn test_detect_stem_name_simple_filename() {
    assert_eq!(detect_stem_name("vocals.wav"), "Vocals");
    assert_eq!(detect_stem_name("drums.mp3"), "Drums");
    assert_eq!(detect_stem_name("bass.flac"), "Bass");
}

#[test]
fn tests_test_detect_stem_name_all_keywords() {
    let keywords = vec![
        ("vocals.wav", "Vocals"),
        ("vox.wav", "Vox"),
        ("drums.wav", "Drums"),
        ("bass.wav", "Bass"),
        ("keys.wav", "Keys"),
        ("keyboard.wav", "Keyboard"),
        ("piano.wav", "Piano"),
        ("guitar.wav", "Guitar"),
        ("synth.wav", "Synth"),
        ("pad.wav", "Pad"),
        ("strings.wav", "Strings"),
        ("orchestra.wav", "Orchestra"),
        ("click.wav", "Click"),
        ("guide.wav", "Guide"),
    ];

    for (filename, expected) in keywords {
        assert_eq!(detect_stem_name(filename), expected);
    }
}

#[test]
fn test_detect_stem_name_fallback_to_filename() {
    assert_eq!(detect_stem_name("unknown_stem.wav"), "Unknown_stem");
    assert_eq!(detect_stem_name("my_custom_name.mp3"), "My_custom_name");
    // Numbers at the end get trimmed by clean_filename
    assert_eq!(detect_stem_name("weird123.flac"), "Weird");
}

#[test]
fn tests_test_detect_stem_name_case_insensitive() {
    assert_eq!(detect_stem_name("VOCALS.wav"), "Vocals");
    assert_eq!(detect_stem_name("DrUmS.mp3"), "Drums");
    assert_eq!(detect_stem_name("BaSs.flac"), "Bass");
}

#[test]
fn test_detect_stem_name_with_numbers() {
    assert_eq!(detect_stem_name("vocals_01.wav"), "Vocals");
    assert_eq!(detect_stem_name("drums_02.mp3"), "Drums");
    assert_eq!(detect_stem_name("Song - Vocals 1.wav"), "Vocals");
}

#[test]
fn dash_part_decides_before_the_rest() {
    // "drums" stands before the separator, "bass" after it.
    assert_eq!(stem_name_with("Drums - Bass", "drums - bass"), "Bass");
    // Only the second piece counts: the third one holds "vocals".
    assert_eq!(stem_name_with("a - piano - vocals", "a - piano - vocals"), "Piano");
    // No instrument in the second piece: the part after the last underscore is next.
    assert_eq!(stem_name_with("a - b - vocals_drums", "a - b - vocals_drums"), "Drums");
}

#[test]
fn underscore_part_decides_before_parentheses() {
    assert_eq!(stem_name_with("(vocals)_drums", "(vocals)_drums"), "Drums");
    // After the last underscore there is nothing known, so the parentheses decide.
    assert_eq!(stem_name_with("bass (piano)_x", "bass (piano)_x"), "Piano");
}

#[test]
fn precedence_follows_the_keyword_list() {
    // "vocals" comes before "drums" in the list, wherever they stand.
    assert_eq!(stem_name_with("drums vocals", "drums vocals"), "Vocals");
    // "keys" comes before "keyboard".
    assert_eq!(stem_name_with("keyboard keys", "keyboard keys"), "Keys");
    assert_eq!(stem_name_with("keyboard", "keyboard"), "Keyboard");
}

#[test]
fn parentheses_need_both_marks_in_order() {
    assert_eq!(stem_name_with(")bass(", ")bass("), "Bass");
    assert_eq!(stem_name_with("Take )1( x", "take )1( x"), "Take )1( x");
}

#[test]
fn lowercase_is_taken_from_the_caller() {
    // The search runs on the second argument alone.
    assert_eq!(stem_name_with("VOCALS", "VOCALS"), "VOCALS");
    assert_eq!(stem_name_with("VOCALS", "vocals"), "Vocals");
    assert_eq!(stem_name_of("VOCALS"), "Vocals");
}

#[test]
fn clean_filename_edge_cases() {
    assert_eq!(clean_filename(""), "");
    // Trimming would leave nothing: the name is kept as it is.
    assert_eq!(clean_filename("123"), "123");
    // Trimming would leave one byte: the name is kept as it is.
    assert_eq!(clean_filename("a1"), "A1");
    assert_eq!(clean_filename("ab1"), "Ab");
    // One character of two bytes is enough to keep the trimmed form.
    assert_eq!(clean_filename("é12"), "É");
    assert_eq!(clean_filename("take 7 _ "), "Take");
    // Upper case may take more than one character.
    assert_eq!(clean_filename("ßtem"), "SStem");
    // Numeric characters outside ASCII are clutter too.
    assert_eq!(clean_filename("mix٣"), "Mix");
}

#[test]
fn to_chars_keeps_every_character() {
    assert_eq!(to_chars("a é_ß"), vec!['a', ' ', 'é', '_', 'ß']);
    assert_eq!(to_chars(""), Vec::<char>::new());
}

#[test]
fn detect_stem_name_without_extension_or_with_path() {
    assert_eq!(detect_stem_name("guitar"), "Guitar");
    assert_eq!(detect_stem_name("takes/final.synth.wav"), "Synth");
    assert_eq!(detect_stem_name("solo.take"), "Solo");
}
