use ultrafxr::note::{Note, ParseNoteError};

#[test]
fn octave() {
    assert_eq!(Note(0).octave(), -1);
    assert_eq!(Note(11).octave(), -1);
    assert_eq!(Note(12).octave(), 0);
    assert_eq!(Note(59).octave(), 3);
    assert_eq!(Note(60).octave(), 4);
    assert_eq!(Note(61).octave(), 4);
}

#[test]
fn chromaticity() {
    assert_eq!(Note(0).chromaticity(), 0);
    assert_eq!(Note(1).chromaticity(), 1);
    assert_eq!(Note(12).chromaticity(), 0);
    assert_eq!(Note(59).chromaticity(), 11);
    assert_eq!(Note(60).chromaticity(), 0);
    assert_eq!(Note(61).chromaticity(), 1);
}

#[test]
fn format() {
    assert_eq!(Note(0).to_string(), "c-1");
    assert_eq!(Note(1).to_string(), "c#-1");
    assert_eq!(Note(12).to_string(), "c0");
    assert_eq!(Note(59).to_string(), "b3");
    assert_eq!(Note(60).to_string(), "c4");
    assert_eq!(Note(61).to_string(), "c#4");
}

#[test]
fn note_parse() {
    for n in 0..=255 {
        let n = Note(n);
        assert_eq!(Ok(n), Note::parse(&n.to_string()));
    }
}

#[test]
fn note_parse_errors() {
    assert_eq!(Note::parse(""), Err(ParseNoteError::CannotParse));
    assert_eq!(Note::parse("x4"), Err(ParseNoteError::UnknownNote));
    assert_eq!(Note::parse("cbbbb4"), Err(ParseNoteError::InvalidAccidentals));
    assert_eq!(Note::parse("c#b4"), Err(ParseNoteError::InvalidAccidentals));
    assert_eq!(Note::parse("c99"), Err(ParseNoteError::OutOfRange));
    assert_eq!(Note::parse("c-3"), Err(ParseNoteError::OutOfRange));
    assert_eq!(Note::parse("ebb3"), Note::parse("d3"));
    assert_eq!(Note::parse("a4"), Ok(Note(69)));
}
