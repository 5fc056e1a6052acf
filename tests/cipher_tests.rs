use playfair::{PairsToString, Playfair, PlayfairError, Shape};

const CIPHER: &str = "ME IK QO TX CQ TE ZX CO MW QC TE HN FB IK ME HA KR QC UN GI KM AV";

// "laboulaye lady will lead to cibola temples of gold".
const PLAIN: &str = "LA BO UL AY EL AD YW IL LX LE AD TO CI BO LA TE MP LE SO FG OL DX";
const KEY: &str = "death";

#[test]
fn test_encipher() {
    let playfair = Playfair::new(KEY.into(), 'j');
    assert!(playfair.encipher(&PLAIN).unwrap().pairs_to_string() == CIPHER);
}

#[test]
fn test_decipher() {
    let playfair = Playfair::new(KEY.into(), 'j');
    assert!(playfair.decipher(&CIPHER).unwrap().pairs_to_string() == PLAIN);
}

#[test]
fn sentence_enciphers_and_deciphers_to_filled_form() {
    let playfair = Playfair::new(KEY.into(), 'j');
    let text = "LABOULAYE LADY WILL LEAD TO CIBOLA TEMPLES OF GOLD";
    let cipher = playfair.encipher(text).unwrap().pairs_to_string();
    assert_eq!(cipher, CIPHER);
    assert_eq!(playfair.decipher(&cipher).unwrap().pairs_to_string(), PLAIN);
}

#[test]
fn square_from_key_leaves_out_lowercase_ignore_char() {
    let playfair = Playfair::new(KEY.into(), 'j');
    assert_eq!(
        playfair.to_string(),
        "| d e a t h |\n| b c f g i |\n| k l m n o |\n| p q r s u |\n| v w x y z |\n"
    );
}

#[test]
fn square_ignores_key_case_and_repeats() {
    let playfair = Playfair::new("DeAth, DEATH!".into(), 'j');
    assert_eq!(
        playfair.to_string(),
        "| d e a t h |\n| b c f g i |\n| k l m n o |\n| p q r s u |\n| v w x y z |\n"
    );
}

#[test]
fn uppercase_ignore_char_excludes_nothing() {
    let playfair = Playfair::new(KEY.into(), 'Q');
    assert_eq!(
        playfair.to_string(),
        "| d e a t h |\n| b c f g i |\n| j k l m n |\n| o p q r s |\n| u v w x y |\n| z |\n"
    );
}

#[test]
fn rectangle_applied_twice_returns_pair() {
    let playfair = Playfair::new(KEY.into(), 'j');
    let once = playfair.encipher("di").unwrap();
    assert_eq!(once, vec![('h', 'b')]);
    let twice = playfair.encipher("hb").unwrap();
    assert_eq!(twice, vec![('d', 'i')]);
    let back = playfair.decipher("hb").unwrap();
    assert_eq!(back, vec![('d', 'i')]);
}

#[test]
fn vertical_line_shifts_down_and_back() {
    let playfair = Playfair::new(KEY.into(), 'j');
    assert_eq!(playfair.encipher("dv").unwrap(), vec![('b', 'd')]);
    assert_eq!(playfair.decipher("bd").unwrap(), vec![('d', 'v')]);
}

#[test]
fn horizontal_line_shifts_right_and_back() {
    let playfair = Playfair::new(KEY.into(), 'j');
    assert_eq!(playfair.encipher("hd").unwrap(), vec![('d', 'e')]);
    assert_eq!(playfair.decipher("de").unwrap(), vec![('h', 'd')]);
}

#[test]
fn decipher_inverts_encipher() {
    let playfair = Playfair::new("playfair example".into(), 'j');
    let text = "hide the gold in the tree stump";
    let digraphs = playfair.chunkify(text);
    let cipher = playfair.encipher(text).unwrap();
    let back = playfair.transform_digraphs(&cipher, 4).unwrap();
    assert_eq!(back, digraphs);
}

#[test]
fn non_letters_are_dropped() {
    let playfair = Playfair::new(KEY.into(), 'j');
    assert_eq!(playfair.chunkify("La3! bo"), playfair.chunkify("labo"));
    assert_eq!(playfair.chunkify("labo"), vec![('l', 'a'), ('b', 'o')]);
}

#[test]
fn chunkify_lowercases_and_pads() {
    let playfair = Playfair::new(KEY.into(), 'j');
    assert_eq!(playfair.chunkify("ABC"), vec![('a', 'b'), ('c', 'x')]);
}

#[test]
fn chunkify_splits_doubled_letters() {
    let playfair = Playfair::new(KEY.into(), 'j');
    assert_eq!(
        playfair.chunkify("balloon"),
        vec![('b', 'a'), ('l', 'x'), ('l', 'o'), ('x', 'o'), ('n', 'x')]
    );
}

#[test]
fn empty_text_gives_nothing() {
    let playfair = Playfair::new(KEY.into(), 'j');
    assert!(playfair.chunkify("").is_empty());
    let out = playfair.encipher("").unwrap();
    assert!(out.is_empty());
    assert_eq!(out.pairs_to_string(), "");
    assert!(playfair.decipher("").unwrap().is_empty());
}

#[test]
fn ignored_letter_aborts_transform() {
    let playfair = Playfair::new(KEY.into(), 'j');
    assert_eq!(
        playfair.encipher("hello jump"),
        Err(PlayfairError::MissingCharacter('j'))
    );
    assert_eq!(playfair.decipher("JJ"), Err(PlayfairError::MissingCharacter('j')));
}

#[test]
fn pairs_render_uppercase_with_spaces() {
    let pairs = vec![('a', 'b'), ('c', 'x')];
    assert_eq!(pairs.pairs_to_string(), "AB CX");
}

#[test]
fn at_wraps_coordinates() {
    let playfair = Playfair::new(KEY.into(), 'j');
    assert_eq!(playfair.at(0, 0), 'd');
    assert_eq!(playfair.at(5, 6), 'b');
    assert_eq!(playfair.at(9, 4), 'z');
}

#[test]
fn find_classifies_shapes() {
    let playfair = Playfair::new(KEY.into(), 'j');
    assert_eq!(playfair.find_single(&'i'), Ok(9));
    assert_eq!(playfair.find_single(&'j'), Err(PlayfairError::MissingCharacter('j')));
    assert_eq!(
        playfair.find(&('d', 'i')),
        Ok(Shape::Rectangle { x1: 0, y1: 0, x2: 4, y2: 1 })
    );
    assert_eq!(playfair.find(&('d', 'v')), Ok(Shape::VerticalLine { x: 0, y1: 0, y2: 4 }));
    assert_eq!(playfair.find(&('h', 'd')), Ok(Shape::HorizontalLine { y: 0, x1: 4, x2: 0 }));
}

#[test]
fn shape_names() {
    assert_eq!(Shape::Rectangle { x1: 0, y1: 0, x2: 1, y2: 1 }.name(), "Rectangle");
    assert_eq!(Shape::VerticalLine { x: 0, y1: 0, y2: 1 }.name(), "VerticalLine");
    assert_eq!(Shape::HorizontalLine { y: 0, x1: 0, x2: 1 }.name(), "HorizontalLine");
}

#[test]
fn only_step_modulo_five_matters() {
    let playfair = Playfair::new(KEY.into(), 'j');
    let text = "LABOULAYE LADY WILL LEAD TO CIBOLA TEMPLES OF GOLD";
    assert_eq!(playfair.transform_with_shapes(text, 6), playfair.encipher(text));
    assert_eq!(playfair.transform_with_shapes(CIPHER, 9), playfair.decipher(CIPHER));
}
