use synacor::room::{parse_room, safe_directions, Command, Direction, Exit};

#[test]
fn room_with_items_and_exits() {
    let text = "\n\n== Foothills ==\nYou find yourself standing at the base of an enormous mountain.\n\nThings of interest here:\n- tablet\n\nThere are 3 exits:\n- doorway\n- north\n- south\n\nWhat do you do?\n";
    let room = parse_room(text.as_bytes()).unwrap();
    assert_eq!(
        room.description,
        vec![
            "== Foothills ==".to_string(),
            "You find yourself standing at the base of an enormous mountain.".to_string()
        ]
    );
    assert_eq!(room.items, vec!["tablet".to_string()]);
    assert_eq!(
        room.exits,
        vec![
            Exit::Other("doorway".to_string()),
            Exit::Dir(Direction::North),
            Exit::Dir(Direction::South)
        ]
    );
}

#[test]
fn room_without_items() {
    let text = "== Passage ==\r\nIt is dark.\r\n\r\nThere is 1 exit:\r\n- west\r\n";
    let room = parse_room(text.as_bytes()).unwrap();
    assert_eq!(room.description, vec!["== Passage ==".to_string(), "It is dark.".to_string()]);
    assert!(room.items.is_empty());
    assert_eq!(room.exits, vec![Exit::Dir(Direction::West)]);
}

#[test]
fn room_without_sections() {
    assert_eq!(parse_room(b"You can't go that way.\n"), None);
    assert_eq!(parse_room(b""), None);
}

#[test]
fn exit_count_needs_digits() {
    let text = "Hall\nThere are many exits:\n- east\n";
    assert_eq!(parse_room(text.as_bytes()), None);
    let text = "Hall\nThere are 12 exits:\n- east\n- ladder\n";
    let room = parse_room(text.as_bytes()).unwrap();
    assert_eq!(room.exits, vec![Exit::Dir(Direction::East), Exit::Other("ladder".to_string())]);
}

#[test]
fn exits_parse_names() {
    assert_eq!(Exit::parse(b"north"), Exit::Dir(Direction::North));
    assert_eq!(Exit::parse(b"east"), Exit::Dir(Direction::East));
    assert_eq!(Exit::parse(b"south"), Exit::Dir(Direction::South));
    assert_eq!(Exit::parse(b"west"), Exit::Dir(Direction::West));
    assert_eq!(Exit::parse(b"North"), Exit::Other("North".to_string()));
    assert_eq!(Direction::parse(b"up"), None);
}

#[test]
fn latin1_bytes_become_chars() {
    let text = [b'X', b'\n', 0xe9, b'\n', b'T', b'h', b'e', b'r', b'e', b' ', b'i', b's', b' ', b'1', b' ', b'e', b'x', b'i', b't', b'\n'];
    let room = parse_room(&text).unwrap();
    assert_eq!(room.description, vec!["X".to_string(), "\u{e9}".to_string()]);
}

#[test]
fn safe_directions_skip_dark_east() {
    let text = "== Maze ==\nYou are in a twisty maze.\nThe passage to the east looks very dark; you think you hear a Grue.\n\nThere are 3 exits:\n- east\n- west\n- ladder\n";
    let room = parse_room(text.as_bytes()).unwrap();
    assert_eq!(safe_directions(&room), vec![Direction::West]);
}

#[test]
fn safe_directions_keep_lit_east() {
    let text = "== Maze ==\nYou are in a twisty maze.\nIt is quiet.\n\nThere are 3 exits:\n- east\n- west\n- ladder\n";
    let room = parse_room(text.as_bytes()).unwrap();
    assert_eq!(safe_directions(&room), vec![Direction::East, Direction::West]);
}

#[test]
fn command_texts() {
    assert_eq!(Command::Take("red coin").text(), b"take red coin".to_vec());
    assert_eq!(Command::Look("can").text(), b"look can".to_vec());
    assert_eq!(Command::Use("teleporter").text(), b"use teleporter".to_vec());
    assert_eq!(Command::Inv.text(), b"inv".to_vec());
    assert_eq!(Command::Use("caf\u{e9}").text(), "use caf\u{e9}".as_bytes().to_vec());
}
