//! Reference layouts.
use vstd::prelude::*;
use crate::layout::{KeyMap, Layer, Layout};

verus! {

/// The layout a search starts from.
pub fn init_layout() -> (l: Layout)
    ensures
        l.lower() == seq![
            'q', 'u', 'p', 'g', '/', 'z', 'l', 'w', 'y', '\'', '=',
            'a', 'r', 'n', 's', 'd', 'f', 'h', 't', 'i', 'o', '-',
            'j', 'k', 'v', 'c', ';', 'x', 'm', 'b', ',', '.',
            'e',
        ],
        l.upper() == seq![
            'Q', 'U', 'P', 'G', '?', 'Z', 'L', 'W', 'Y', '"', '+',
            'A', 'R', 'N', 'S', 'D', 'F', 'H', 'T', 'I', 'O', '_',
            'J', 'K', 'V', 'C', ':', 'X', 'M', 'B', '<', '>',
            'E',
        ],
{
    let l = Layout(
        Layer(KeyMap([
            'q', 'u', 'p', 'g', '/', 'z', 'l', 'w', 'y', '\'', '=',
            'a', 'r', 'n', 's', 'd', 'f', 'h', 't', 'i', 'o', '-',
            'j', 'k', 'v', 'c', ';', 'x', 'm', 'b', ',', '.',
            'e',
        ])),
        Layer(KeyMap([
            'Q', 'U', 'P', 'G', '?', 'Z', 'L', 'W', 'Y', '"', '+',
            'A', 'R', 'N', 'S', 'D', 'F', 'H', 'T', 'I', 'O', '_',
            'J', 'K', 'V', 'C', ':', 'X', 'M', 'B', '<', '>',
            'E',
        ])),
    );
    assert(l.lower() =~= seq![
        'q', 'u', 'p', 'g', '/', 'z', 'l', 'w', 'y', '\'', '=',
        'a', 'r', 'n', 's', 'd', 'f', 'h', 't', 'i', 'o', '-',
        'j', 'k', 'v', 'c', ';', 'x', 'm', 'b', ',', '.',
        'e',
    ]);
    assert(l.upper() =~= seq![
        'Q', 'U', 'P', 'G', '?', 'Z', 'L', 'W', 'Y', '"', '+',
        'A', 'R', 'N', 'S', 'D', 'F', 'H', 'T', 'I', 'O', '_',
        'J', 'K', 'V', 'C', ':', 'X', 'M', 'B', '<', '>',
        'E',
    ]);
    l
}

/// QWERTY.
pub fn qwerty_layout() -> (l: Layout)
    ensures
        l.lower() == seq![
            'q', 'w', 'e', 'r', 't', 'y', 'u', 'i', 'o', 'p', '-',
            'a', 's', 'd', 'f', 'g', 'h', 'j', 'k', 'l', ';', '\'',
            'z', 'x', 'c', 'v', 'b', 'n', 'm', ',', '.', '/',
            '\0',
        ],
        l.upper() == seq![
            'Q', 'W', 'E', 'R', 'T', 'Y', 'U', 'I', 'O', 'P', '_',
            'A', 'S', 'D', 'F', 'G', 'H', 'J', 'K', 'L', ':', '"',
            'Z', 'X', 'C', 'V', 'B', 'N', 'M', '<', '>', '?',
            '\0',
        ],
{
    let l = Layout(
        Layer(KeyMap([
            'q', 'w', 'e', 'r', 't', 'y', 'u', 'i', 'o', 'p', '-',
            'a', 's', 'd', 'f', 'g', 'h', 'j', 'k', 'l', ';', '\'',
            'z', 'x', 'c', 'v', 'b', 'n', 'm', ',', '.', '/',
            '\0',
        ])),
        Layer(KeyMap([
            'Q', 'W', 'E', 'R', 'T', 'Y', 'U', 'I', 'O', 'P', '_',
            'A', 'S', 'D', 'F', 'G', 'H', 'J', 'K', 'L', ':', '"',
            'Z', 'X', 'C', 'V', 'B', 'N', 'M', '<', '>', '?',
            '\0',
        ])),
    );
    assert(l.lower() =~= seq![
        'q', 'w', 'e', 'r', 't', 'y', 'u', 'i', 'o', 'p', '-',
        'a', 's', 'd', 'f', 'g', 'h', 'j', 'k', 'l', ';', '\'',
        'z', 'x', 'c', 'v', 'b', 'n', 'm', ',', '.', '/',
        '\0',
    ]);
    assert(l.upper() =~= seq![
        'Q', 'W', 'E', 'R', 'T', 'Y', 'U', 'I', 'O', 'P', '_',
        'A', 'S', 'D', 'F', 'G', 'H', 'J', 'K', 'L', ':', '"',
        'Z', 'X', 'C', 'V', 'B', 'N', 'M', '<', '>', '?',
        '\0',
    ]);
    l
}

/// Dvorak.
pub fn dvorak_layout() -> (l: Layout)
    ensures
        l.lower() == seq![
            '\'', ',', '.', 'p', 'y', 'f', 'g', 'c', 'r', 'l', '/',
            'a', 'o', 'e', 'u', 'i', 'd', 'h', 't', 'n', 's', '-',
            ';', 'q', 'j', 'k', 'x', 'b', 'm', 'w', 'v', 'z',
            '\0',
        ],
        l.upper() == seq![
            '"', ',', '.', 'P', 'Y', 'F', 'G', 'C', 'R', 'L', '?',
            'A', 'O', 'E', 'U', 'I', 'D', 'H', 'T', 'N', 'S', '_',
            ':', 'Q', 'J', 'K', 'X', 'B', 'M', 'W', 'V', 'Z',
            '\0',
        ],
{
    let l = Layout(
        Layer(KeyMap([
            '\'', ',', '.', 'p', 'y', 'f', 'g', 'c', 'r', 'l', '/',
            'a', 'o', 'e', 'u', 'i', 'd', 'h', 't', 'n', 's', '-',
            ';', 'q', 'j', 'k', 'x', 'b', 'm', 'w', 'v', 'z',
            '\0',
        ])),
        Layer(KeyMap([
            '"', ',', '.', 'P', 'Y', 'F', 'G', 'C', 'R', 'L', '?',
            'A', 'O', 'E', 'U', 'I', 'D', 'H', 'T', 'N', 'S', '_',
            ':', 'Q', 'J', 'K', 'X', 'B', 'M', 'W', 'V', 'Z',
            '\0',
        ])),
    );
    assert(l.lower() =~= seq![
        '\'', ',', '.', 'p', 'y', 'f', 'g', 'c', 'r', 'l', '/',
        'a', 'o', 'e', 'u', 'i', 'd', 'h', 't', 'n', 's', '-',
        ';', 'q', 'j', 'k', 'x', 'b', 'm', 'w', 'v', 'z',
        '\0',
    ]);
    assert(l.upper() =~= seq![
        '"', ',', '.', 'P', 'Y', 'F', 'G', 'C', 'R', 'L', '?',
        'A', 'O', 'E', 'U', 'I', 'D', 'H', 'T', 'N', 'S', '_',
        ':', 'Q', 'J', 'K', 'X', 'B', 'M', 'W', 'V', 'Z',
        '\0',
    ]);
    l
}

/// Colemak.
pub fn colemak_layout() -> (l: Layout)
    ensures
        l.lower() == seq![
            'q', 'w', 'f', 'p', 'g', 'j', 'l', 'u', 'y', ';', '-',
            'a', 'r', 's', 't', 'd', 'h', 'n', 'e', 'i', 'o', '\'',
            'z', 'x', 'c', 'v', 'b', 'k', 'm', ',', '.', '/',
            '\0',
        ],
        l.upper() == seq![
            'Q', 'W', 'F', 'P', 'G', 'J', 'L', 'U', 'Y', ':', '_',
            'A', 'R', 'S', 'T', 'D', 'H', 'N', 'E', 'I', 'O', '"',
            'Z', 'X', 'C', 'V', 'B', 'K', 'M', '<', '>', 'Z',
            '\0',
        ],
{
    let l = Layout(
        Layer(KeyMap([
            'q', 'w', 'f', 'p', 'g', 'j', 'l', 'u', 'y', ';', '-',
            'a', 'r', 's', 't', 'd', 'h', 'n', 'e', 'i', 'o', '\'',
            'z', 'x', 'c', 'v', 'b', 'k', 'm', ',', '.', '/',
            '\0',
        ])),
        Layer(KeyMap([
            'Q', 'W', 'F', 'P', 'G', 'J', 'L', 'U', 'Y', ':', '_',
            'A', 'R', 'S', 'T', 'D', 'H', 'N', 'E', 'I', 'O', '"',
            'Z', 'X', 'C', 'V', 'B', 'K', 'M', '<', '>', 'Z',
            '\0',
        ])),
    );
    assert(l.lower() =~= seq![
        'q', 'w', 'f', 'p', 'g', 'j', 'l', 'u', 'y', ';', '-',
        'a', 'r', 's', 't', 'd', 'h', 'n', 'e', 'i', 'o', '\'',
        'z', 'x', 'c', 'v', 'b', 'k', 'm', ',', '.', '/',
        '\0',
    ]);
    assert(l.upper() =~= seq![
        'Q', 'W', 'F', 'P', 'G', 'J', 'L', 'U', 'Y', ':', '_',
        'A', 'R', 'S', 'T', 'D', 'H', 'N', 'E', 'I', 'O', '"',
        'Z', 'X', 'C', 'V', 'B', 'K', 'M', '<', '>', 'Z',
        '\0',
    ]);
    l
}

/// QGMLWY.
pub fn qgmlwy_layout() -> (l: Layout)
    ensures
        l.lower() == seq![
            'q', 'g', 'm', 'l', 'w', 'y', 'f', 'u', 'b', ';', '-',
            'd', 's', 't', 'n', 'r', 'i', 'a', 'e', 'o', 'h', '\'',
            'z', 'x', 'c', 'v', 'j', 'k', 'p', ',', '.', '/',
            '\0',
        ],
        l.upper() == seq![
            'Q', 'G', 'M', 'L', 'W', 'Y', 'F', 'U', 'B', ';', '-',
            'D', 'S', 'T', 'N', 'R', 'I', 'A', 'E', 'O', 'H', '\'',
            'Z', 'X', 'C', 'V', 'J', 'K', 'P', ',', '.', '/',
            '\0',
        ],
{
    let l = Layout(
        Layer(KeyMap([
            'q', 'g', 'm', 'l', 'w', 'y', 'f', 'u', 'b', ';', '-',
            'd', 's', 't', 'n', 'r', 'i', 'a', 'e', 'o', 'h', '\'',
            'z', 'x', 'c', 'v', 'j', 'k', 'p', ',', '.', '/',
            '\0',
        ])),
        Layer(KeyMap([
            'Q', 'G', 'M', 'L', 'W', 'Y', 'F', 'U', 'B', ';', '-',
            'D', 'S', 'T', 'N', 'R', 'I', 'A', 'E', 'O', 'H', '\'',
            'Z', 'X', 'C', 'V', 'J', 'K', 'P', ',', '.', '/',
            '\0',
        ])),
    );
    assert(l.lower() =~= seq![
        'q', 'g', 'm', 'l', 'w', 'y', 'f', 'u', 'b', ';', '-',
        'd', 's', 't', 'n', 'r', 'i', 'a', 'e', 'o', 'h', '\'',
        'z', 'x', 'c', 'v', 'j', 'k', 'p', ',', '.', '/',
        '\0',
    ]);
    assert(l.upper() =~= seq![
        'Q', 'G', 'M', 'L', 'W', 'Y', 'F', 'U', 'B', ';', '-',
        'D', 'S', 'T', 'N', 'R', 'I', 'A', 'E', 'O', 'H', '\'',
        'Z', 'X', 'C', 'V', 'J', 'K', 'P', ',', '.', '/',
        '\0',
    ]);
    l
}

/// Workman.
pub fn workman_layout() -> (l: Layout)
    ensures
        l.lower() == seq![
            'q', 'd', 'r', 'w', 'b', 'j', 'f', 'u', 'p', ';', '-',
            'a', 's', 'h', 't', 'g', 'y', 'n', 'e', 'o', 'i', '\'',
            'z', 'x', 'm', 'c', 'v', 'k', 'l', ',', '.', '/',
            '\0',
        ],
        l.upper() == seq![
            'Q', 'D', 'R', 'W', 'B', 'J', 'F', 'U', 'P', ';', '-',
            'A', 'S', 'H', 'T', 'G', 'Y', 'N', 'E', 'O', 'I', '\'',
            'Z', 'X', 'M', 'C', 'V', 'K', 'L', ',', '.', '/',
            '\0',
        ],
{
    let l = Layout(
        Layer(KeyMap([
            'q', 'd', 'r', 'w', 'b', 'j', 'f', 'u', 'p', ';', '-',
            'a', 's', 'h', 't', 'g', 'y', 'n', 'e', 'o', 'i', '\'',
            'z', 'x', 'm', 'c', 'v', 'k', 'l', ',', '.', '/',
            '\0',
        ])),
        Layer(KeyMap([
            'Q', 'D', 'R', 'W', 'B', 'J', 'F', 'U', 'P', ';', '-',
            'A', 'S', 'H', 'T', 'G', 'Y', 'N', 'E', 'O', 'I', '\'',
            'Z', 'X', 'M', 'C', 'V', 'K', 'L', ',', '.', '/',
            '\0',
        ])),
    );
    assert(l.lower() =~= seq![
        'q', 'd', 'r', 'w', 'b', 'j', 'f', 'u', 'p', ';', '-',
        'a', 's', 'h', 't', 'g', 'y', 'n', 'e', 'o', 'i', '\'',
        'z', 'x', 'm', 'c', 'v', 'k', 'l', ',', '.', '/',
        '\0',
    ]);
    assert(l.upper() =~= seq![
        'Q', 'D', 'R', 'W', 'B', 'J', 'F', 'U', 'P', ';', '-',
        'A', 'S', 'H', 'T', 'G', 'Y', 'N', 'E', 'O', 'I', '\'',
        'Z', 'X', 'M', 'C', 'V', 'K', 'L', ',', '.', '/',
        '\0',
    ]);
    l
}

/// Maltron.
pub fn maltron_layout() -> (l: Layout)
    ensures
        l.lower() == seq![
            'q', 'p', 'y', 'c', 'b', 'v', 'm', 'u', 'z', 'l', '=',
            'a', 'n', 'i', 's', 'f', 'd', 't', 'h', 'o', 'r', '\'',
            ',', '.', 'j', 'g', '/', ';', 'w', 'k', '-', 'x',
            'e',
        ],
        l.upper() == seq![
            'Q', 'P', 'Y', 'C', 'B', 'V', 'M', 'U', 'Z', 'L', '+',
            'A', 'N', 'I', 'S', 'F', 'D', 'T', 'H', 'O', 'R', '"',
            '<', '>', 'J', 'G', '?', ':', 'W', 'K', '_', 'X',
            'E',
        ],
{
    let l = Layout(
        Layer(KeyMap([
            'q', 'p', 'y', 'c', 'b', 'v', 'm', 'u', 'z', 'l', '=',
            'a', 'n', 'i', 's', 'f', 'd', 't', 'h', 'o', 'r', '\'',
            ',', '.', 'j', 'g', '/', ';', 'w', 'k', '-', 'x',
            'e',
        ])),
        Layer(KeyMap([
            'Q', 'P', 'Y', 'C', 'B', 'V', 'M', 'U', 'Z', 'L', '+',
            'A', 'N', 'I', 'S', 'F', 'D', 'T', 'H', 'O', 'R', '"',
            '<', '>', 'J', 'G', '?', ':', 'W', 'K', '_', 'X',
            'E',
        ])),
    );
    assert(l.lower() =~= seq![
        'q', 'p', 'y', 'c', 'b', 'v', 'm', 'u', 'z', 'l', '=',
        'a', 'n', 'i', 's', 'f', 'd', 't', 'h', 'o', 'r', '\'',
        ',', '.', 'j', 'g', '/', ';', 'w', 'k', '-', 'x',
        'e',
    ]);
    assert(l.upper() =~= seq![
        'Q', 'P', 'Y', 'C', 'B', 'V', 'M', 'U', 'Z', 'L', '+',
        'A', 'N', 'I', 'S', 'F', 'D', 'T', 'H', 'O', 'R', '"',
        '<', '>', 'J', 'G', '?', ':', 'W', 'K', '_', 'X',
        'E',
    ]);
    l
}

} // verus!
