use keygen::references::{
    colemak_layout, dvorak_layout, init_layout, maltron_layout, qgmlwy_layout, qwerty_layout,
    workman_layout,
};

#[test]
fn reference_layouts_show_their_rows() {
    let text: String = qwerty_layout().display_chars().into_iter().collect();
    assert_eq!(text, "q w e r t | y u i o p -\na s d f g | h j k l ; '\nz x c v b | n m , . /\n        \0");
    let text: String = init_layout().display_chars().into_iter().collect();
    assert_eq!(text, "q u p g / | z l w y ' =\na r n s d | f h t i o -\nj k v c ; | x m b , .\n        e");
    assert_eq!(dvorak_layout().0 .0 .0[11], 'a');
    assert_eq!(colemak_layout().0 .0 .0[13], 's');
    assert_eq!(qgmlwy_layout().0 .0 .0[1], 'g');
    assert_eq!(workman_layout().1 .0 .0[2], 'R');
    assert_eq!(maltron_layout().0 .0 .0[32], 'e');
}
