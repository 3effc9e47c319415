use lib::ids::{DisplayId, NodeId, GroupId, InputId, fmt_node_id};

#[test]
fn display_id_formats() {
    assert_eq!(DisplayId(2).to_text(), "d2");
    assert_eq!(DisplayId(0).to_text(), "d0");
    assert_eq!(DisplayId(3).index(), 3);
}

#[test]
fn node_id_notation() {
    let id = NodeId::from_raw((7 << 16) | 0x2A);
    assert_eq!(fmt_node_id(id), "n42g7");
}

#[test]
fn node_id_raw_roundtrip() {
    let id = NodeId::from_raw(0x0003_000c);
    assert_eq!(id.index(), 12);
    assert_eq!(id.generation(), 3);
    assert_eq!(id.to_raw(), 0x0003_000c);
}

#[test]
fn group_and_input_ids_print_with_their_letter() {
    assert_eq!(GroupId(4).to_text(), "g4");
    assert_eq!(InputId(1).to_text(), "i1");
    assert_eq!(GroupId(4).index(), 4);
    assert_eq!(InputId(7).index(), 7);
}
