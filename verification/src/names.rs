//! The named-color table: W3C X11 color names and their hexadecimal
//! values, built once and searched in both directions.

use vstd::prelude::*;
use vstd::string::StringSliceAdditionalSpecFns;

verus! {

pub open spec fn table_part_0() -> Seq<(&'static str, &'static str)> {
    seq![
        ("aliceblue", "#f0f8ff"),
        ("antiquewhite", "#faebd7"),
        ("aqua", "#00ffff"),
        ("aquamarine", "#7fffd4"),
        ("azure", "#f0ffff"),
        ("beige", "#f5f5dc"),
        ("bisque", "#ffe4c4"),
        ("black", "#000000"),
        ("blanchedalmond", "#ffebcd"),
        ("blue", "#0000ff"),
        ("blueviolet", "#8a2be2"),
        ("brown", "#a52a2a"),
        ("burlywood", "#deb887"),
        ("cadetblue", "#5f9ea0"),
        ("chartreuse", "#7fff00"),
        ("chocolate", "#d2691e"),
        ("coral", "#ff7f50"),
        ("cornflowerblue", "#6495ed"),
        ("cornsilk", "#fff8dc"),
        ("crimson", "#dc143c"),
        ("cyan", "#00ffff"),
        ("darkblue", "#00008b"),
        ("darkcyan", "#008b8b"),
        ("darkgoldenrod", "#b8860b"),
        ("darkgray", "#a9a9a9"),
        ("darkgreen", "#006400"),
        ("darkgrey", "#a9a9a9"),
        ("darkkhaki", "#bdb76b"),
        ("darkmagenta", "#8b008b"),
        ("darkolivegreen", "#556b2f"),
    ]
}

pub open spec fn table_part_1() -> Seq<(&'static str, &'static str)> {
    seq![
        ("darkorange", "#ff8c00"),
        ("darkorchid", "#9932cc"),
        ("darkred", "#8b0000"),
        ("darksalmon", "#e9967a"),
        ("darkseagreen", "#8fbc8f"),
        ("darkslateblue", "#483d8b"),
        ("darkslategray", "#2f4f4f"),
        ("darkslategrey", "#2f4f4f"),
        ("darkturquoise", "#00ced1"),
        ("darkviolet", "#9400d3"),
        ("deeppink", "#ff1493"),
        ("deepskyblue", "#00bfff"),
        ("dimgray", "#696969"),
        ("dimgrey", "#696969"),
        ("dodgerblue", "#1e90ff"),
        ("firebrick", "#b22222"),
        ("floralwhite", "#fffaf0"),
        ("forestgreen", "#228b22"),
        ("fuchsia", "#ff00ff"),
        ("gainsboro", "#dcdcdc"),
        ("ghostwhite", "#f8f8ff"),
        ("gold", "#ffd700"),
        ("goldenrod", "#daa520"),
        ("gray", "#808080"),
        ("green", "#008000"),
        ("greenyellow", "#adff2f"),
        ("grey", "#808080"),
        ("honeydew", "#f0fff0"),
        ("hotpink", "#ff69b4"),
        ("indianred", "#cd5c5c"),
    ]
}

pub open spec fn table_part_2() -> Seq<(&'static str, &'static str)> {
    seq![
        ("indigo", "#4b0082"),
        ("ivory", "#fffff0"),
        ("khaki", "#f0e68c"),
        ("laserlemon", "#ffff54"),
        ("lavender", "#e6e6fa"),
        ("lavenderblush", "#fff0f5"),
        ("lawngreen", "#7cfc00"),
        ("lemonchiffon", "#fffacd"),
        ("lightblue", "#add8e6"),
        ("lightcoral", "#f08080"),
        ("lightcyan", "#e0ffff"),
        ("lightgoldenrod", "#fafad2"),
        ("lightgoldenrodyellow", "#fafad2"),
        ("lightgray", "#d3d3d3"),
        ("lightgreen", "#90ee90"),
        ("lightgrey", "#d3d3d3"),
        ("lightpink", "#ffb6c1"),
        ("lightsalmon", "#ffa07a"),
        ("lightseagreen", "#20b2aa"),
        ("lightskyblue", "#87cefa"),
        ("lightslategray", "#778899"),
        ("lightslategrey", "#778899"),
        ("lightsteelblue", "#b0c4de"),
        ("lightyellow", "#ffffe0"),
        ("lime", "#00ff00"),
        ("limegreen", "#32cd32"),
        ("linen", "#faf0e6"),
        ("magenta", "#ff00ff"),
        ("maroon", "#800000"),
        ("maroon2", "#7f0000"),
    ]
}

pub open spec fn table_part_3() -> Seq<(&'static str, &'static str)> {
    seq![
        ("maroon3", "#b03060"),
        ("mediumaquamarine", "#66cdaa"),
        ("mediumblue", "#0000cd"),
        ("mediumorchid", "#ba55d3"),
        ("mediumpurple", "#9370db"),
        ("mediumseagreen", "#3cb371"),
        ("mediumslateblue", "#7b68ee"),
        ("mediumspringgreen", "#00fa9a"),
        ("mediumturquoise", "#48d1cc"),
        ("mediumvioletred", "#c71585"),
        ("midnightblue", "#191970"),
        ("mintcream", "#f5fffa"),
        ("mistyrose", "#ffe4e1"),
        ("moccasin", "#ffe4b5"),
        ("navajowhite", "#ffdead"),
        ("navy", "#000080"),
        ("oldlace", "#fdf5e6"),
        ("olive", "#808000"),
        ("olivedrab", "#6b8e23"),
        ("orange", "#ffa500"),
        ("orangered", "#ff4500"),
        ("orchid", "#da70d6"),
        ("palegoldenrod", "#eee8aa"),
        ("palegreen", "#98fb98"),
        ("paleturquoise", "#afeeee"),
        ("palevioletred", "#db7093"),
        ("papayawhip", "#ffefd5"),
        ("peachpuff", "#ffdab9"),
        ("peru", "#cd853f"),
        ("pink", "#ffc0cb"),
    ]
}

pub open spec fn table_part_4() -> Seq<(&'static str, &'static str)> {
    seq![
        ("plum", "#dda0dd"),
        ("powderblue", "#b0e0e6"),
        ("purple", "#800080"),
        ("purple2", "#7f007f"),
        ("purple3", "#a020f0"),
        ("rebeccapurple", "#663399"),
        ("red", "#ff0000"),
        ("rosybrown", "#bc8f8f"),
        ("royalblue", "#4169e1"),
        ("saddlebrown", "#8b4513"),
        ("salmon", "#fa8072"),
        ("sandybrown", "#f4a460"),
        ("seagreen", "#2e8b57"),
        ("seashell", "#fff5ee"),
        ("sienna", "#a0522d"),
        ("silver", "#c0c0c0"),
        ("skyblue", "#87ceeb"),
        ("slateblue", "#6a5acd"),
        ("slategray", "#708090"),
        ("slategrey", "#708090"),
        ("snow", "#fffafa"),
        ("springgreen", "#00ff7f"),
        ("steelblue", "#4682b4"),
        ("tan", "#d2b48c"),
        ("teal", "#008080"),
        ("thistle", "#d8bfd8"),
        ("tomato", "#ff6347"),
        ("turquoise", "#40e0d0"),
        ("violet", "#ee82ee"),
        ("wheat", "#f5deb3"),
    ]
}

pub open spec fn table_part_5() -> Seq<(&'static str, &'static str)> {
    seq![
        ("white", "#ffffff"),
        ("whitesmoke", "#f5f5f5"),
        ("yellow", "#ffff00"),
        ("yellowgreen", "#9acd32"),
    ]
}

/// The full name-to-hex table as a sequence of pairs, in a fixed
/// order.
pub open spec fn spec_table() -> Seq<(&'static str, &'static str)> {
    table_part_0() + table_part_1() + table_part_2() + table_part_3() + table_part_4() + table_part_5()
}

fn table_chunk_0() -> (t: Vec<(&'static str, &'static str)>)
    ensures
        t@ == table_part_0(),
{
    let mut t: Vec<(&'static str, &'static str)> = Vec::new();
    t.push(("aliceblue", "#f0f8ff"));
    t.push(("antiquewhite", "#faebd7"));
    t.push(("aqua", "#00ffff"));
    t.push(("aquamarine", "#7fffd4"));
    t.push(("azure", "#f0ffff"));
    t.push(("beige", "#f5f5dc"));
    t.push(("bisque", "#ffe4c4"));
    t.push(("black", "#000000"));
    t.push(("blanchedalmond", "#ffebcd"));
    t.push(("blue", "#0000ff"));
    t.push(("blueviolet", "#8a2be2"));
    t.push(("brown", "#a52a2a"));
    t.push(("burlywood", "#deb887"));
    t.push(("cadetblue", "#5f9ea0"));
    t.push(("chartreuse", "#7fff00"));
    t.push(("chocolate", "#d2691e"));
    t.push(("coral", "#ff7f50"));
    t.push(("cornflowerblue", "#6495ed"));
    t.push(("cornsilk", "#fff8dc"));
    t.push(("crimson", "#dc143c"));
    t.push(("cyan", "#00ffff"));
    t.push(("darkblue", "#00008b"));
    t.push(("darkcyan", "#008b8b"));
    t.push(("darkgoldenrod", "#b8860b"));
    t.push(("darkgray", "#a9a9a9"));
    t.push(("darkgreen", "#006400"));
    t.push(("darkgrey", "#a9a9a9"));
    t.push(("darkkhaki", "#bdb76b"));
    t.push(("darkmagenta", "#8b008b"));
    t.push(("darkolivegreen", "#556b2f"));
    proof {
        assert(t@ =~= table_part_0());
    }
    t
}

fn table_chunk_1() -> (t: Vec<(&'static str, &'static str)>)
    ensures
        t@ == table_part_1(),
{
    let mut t: Vec<(&'static str, &'static str)> = Vec::new();
    t.push(("darkorange", "#ff8c00"));
    t.push(("darkorchid", "#9932cc"));
    t.push(("darkred", "#8b0000"));
    t.push(("darksalmon", "#e9967a"));
    t.push(("darkseagreen", "#8fbc8f"));
    t.push(("darkslateblue", "#483d8b"));
    t.push(("darkslategray", "#2f4f4f"));
    t.push(("darkslategrey", "#2f4f4f"));
    t.push(("darkturquoise", "#00ced1"));
    t.push(("darkviolet", "#9400d3"));
    t.push(("deeppink", "#ff1493"));
    t.push(("deepskyblue", "#00bfff"));
    t.push(("dimgray", "#696969"));
    t.push(("dimgrey", "#696969"));
    t.push(("dodgerblue", "#1e90ff"));
    t.push(("firebrick", "#b22222"));
    t.push(("floralwhite", "#fffaf0"));
    t.push(("forestgreen", "#228b22"));
    t.push(("fuchsia", "#ff00ff"));
    t.push(("gainsboro", "#dcdcdc"));
    t.push(("ghostwhite", "#f8f8ff"));
    t.push(("gold", "#ffd700"));
    t.push(("goldenrod", "#daa520"));
    t.push(("gray", "#808080"));
    t.push(("green", "#008000"));
    t.push(("greenyellow", "#adff2f"));
    t.push(("grey", "#808080"));
    t.push(("honeydew", "#f0fff0"));
    t.push(("hotpink", "#ff69b4"));
    t.push(("indianred", "#cd5c5c"));
    proof {
        assert(t@ =~= table_part_1());
    }
    t
}

fn table_chunk_2() -> (t: Vec<(&'static str, &'static str)>)
    ensures
        t@ == table_part_2(),
{
    let mut t: Vec<(&'static str, &'static str)> = Vec::new();
    t.push(("indigo", "#4b0082"));
    t.push(("ivory", "#fffff0"));
    t.push(("khaki", "#f0e68c"));
    t.push(("laserlemon", "#ffff54"));
    t.push(("lavender", "#e6e6fa"));
    t.push(("lavenderblush", "#fff0f5"));
    t.push(("lawngreen", "#7cfc00"));
    t.push(("lemonchiffon", "#fffacd"));
    t.push(("lightblue", "#add8e6"));
    t.push(("lightcoral", "#f08080"));
    t.push(("lightcyan", "#e0ffff"));
    t.push(("lightgoldenrod", "#fafad2"));
    t.push(("lightgoldenrodyellow", "#fafad2"));
    t.push(("lightgray", "#d3d3d3"));
    t.push(("lightgreen", "#90ee90"));
    t.push(("lightgrey", "#d3d3d3"));
    t.push(("lightpink", "#ffb6c1"));
    t.push(("lightsalmon", "#ffa07a"));
    t.push(("lightseagreen", "#20b2aa"));
    t.push(("lightskyblue", "#87cefa"));
    t.push(("lightslategray", "#778899"));
    t.push(("lightslategrey", "#778899"));
    t.push(("lightsteelblue", "#b0c4de"));
    t.push(("lightyellow", "#ffffe0"));
    t.push(("lime", "#00ff00"));
    t.push(("limegreen", "#32cd32"));
    t.push(("linen", "#faf0e6"));
    t.push(("magenta", "#ff00ff"));
    t.push(("maroon", "#800000"));
    t.push(("maroon2", "#7f0000"));
    proof {
        assert(t@ =~= table_part_2());
    }
    t
}

fn table_chunk_3() -> (t: Vec<(&'static str, &'static str)>)
    ensures
        t@ == table_part_3(),
{
    let mut t: Vec<(&'static str, &'static str)> = Vec::new();
    t.push(("maroon3", "#b03060"));
    t.push(("mediumaquamarine", "#66cdaa"));
    t.push(("mediumblue", "#0000cd"));
    t.push(("mediumorchid", "#ba55d3"));
    t.push(("mediumpurple", "#9370db"));
    t.push(("mediumseagreen", "#3cb371"));
    t.push(("mediumslateblue", "#7b68ee"));
    t.push(("mediumspringgreen", "#00fa9a"));
    t.push(("mediumturquoise", "#48d1cc"));
    t.push(("mediumvioletred", "#c71585"));
    t.push(("midnightblue", "#191970"));
    t.push(("mintcream", "#f5fffa"));
    t.push(("mistyrose", "#ffe4e1"));
    t.push(("moccasin", "#ffe4b5"));
    t.push(("navajowhite", "#ffdead"));
    t.push(("navy", "#000080"));
    t.push(("oldlace", "#fdf5e6"));
    t.push(("olive", "#808000"));
    t.push(("olivedrab", "#6b8e23"));
    t.push(("orange", "#ffa500"));
    t.push(("orangered", "#ff4500"));
    t.push(("orchid", "#da70d6"));
    t.push(("palegoldenrod", "#eee8aa"));
    t.push(("palegreen", "#98fb98"));
    t.push(("paleturquoise", "#afeeee"));
    t.push(("palevioletred", "#db7093"));
    t.push(("papayawhip", "#ffefd5"));
    t.push(("peachpuff", "#ffdab9"));
    t.push(("peru", "#cd853f"));
    t.push(("pink", "#ffc0cb"));
    proof {
        assert(t@ =~= table_part_3());
    }
    t
}

fn table_chunk_4() -> (t: Vec<(&'static str, &'static str)>)
    ensures
        t@ == table_part_4(),
{
    let mut t: Vec<(&'static str, &'static str)> = Vec::new();
    t.push(("plum", "#dda0dd"));
    t.push(("powderblue", "#b0e0e6"));
    t.push(("purple", "#800080"));
    t.push(("purple2", "#7f007f"));
    t.push(("purple3", "#a020f0"));
    t.push(("rebeccapurple", "#663399"));
    t.push(("red", "#ff0000"));
    t.push(("rosybrown", "#bc8f8f"));
    t.push(("royalblue", "#4169e1"));
    t.push(("saddlebrown", "#8b4513"));
    t.push(("salmon", "#fa8072"));
    t.push(("sandybrown", "#f4a460"));
    t.push(("seagreen", "#2e8b57"));
    t.push(("seashell", "#fff5ee"));
    t.push(("sienna", "#a0522d"));
    t.push(("silver", "#c0c0c0"));
    t.push(("skyblue", "#87ceeb"));
    t.push(("slateblue", "#6a5acd"));
    t.push(("slategray", "#708090"));
    t.push(("slategrey", "#708090"));
    t.push(("snow", "#fffafa"));
    t.push(("springgreen", "#00ff7f"));
    t.push(("steelblue", "#4682b4"));
    t.push(("tan", "#d2b48c"));
    t.push(("teal", "#008080"));
    t.push(("thistle", "#d8bfd8"));
    t.push(("tomato", "#ff6347"));
    t.push(("turquoise", "#40e0d0"));
    t.push(("violet", "#ee82ee"));
    t.push(("wheat", "#f5deb3"));
    proof {
        assert(t@ =~= table_part_4());
    }
    t
}

fn table_chunk_5() -> (t: Vec<(&'static str, &'static str)>)
    ensures
        t@ == table_part_5(),
{
    let mut t: Vec<(&'static str, &'static str)> = Vec::new();
    t.push(("white", "#ffffff"));
    t.push(("whitesmoke", "#f5f5f5"));
    t.push(("yellow", "#ffff00"));
    t.push(("yellowgreen", "#9acd32"));
    proof {
        assert(t@ =~= table_part_5());
    }
    t
}

/// Build the table; the result is exactly `spec_table`.
pub fn color_table() -> (t: Vec<(&'static str, &'static str)>)
    ensures
        t@ == spec_table(),
{
    let mut t = table_chunk_0();
    let mut c1 = table_chunk_1();
    t.append(&mut c1);
    let mut c2 = table_chunk_2();
    t.append(&mut c2);
    let mut c3 = table_chunk_3();
    t.append(&mut c3);
    let mut c4 = table_chunk_4();
    t.append(&mut c4);
    let mut c5 = table_chunk_5();
    t.append(&mut c5);
    proof {
        assert(t@ =~= spec_table());
    }
    t
}

/// Byte-for-byte equality of two byte slices.
pub fn bytes_eq(a: &[u8], b: &[u8]) -> (r: bool)
    ensures
        r == (a@ == b@),
{
    if a.len() != b.len() {
        proof {
            assert(a@.len() != b@.len());
        }
        return false;
    }
    let mut i: usize = 0;
    while i < a.len()
        invariant
            i <= a@.len() == b@.len(),
            forall|k: int| 0 <= k < i ==> a@[k] == b@[k],
        decreases a@.len() - i,
    {
        if a[i] != b[i] {
            proof {
                assert(a@[i as int] != b@[i as int]);
            }
            return false;
        }
        i = i + 1;
    }
    proof {
        assert(a@ =~= b@);
    }
    true
}

/// The hex value paired with the first table name whose bytes equal
/// `bs`, searched in table order.
pub open spec fn spec_lookup_name(t: Seq<(&'static str, &'static str)>, bs: Seq<u8>) -> Option<
    &'static str,
>
    decreases t.len(),
{
    if t.len() == 0 {
        None
    } else if t[0].0.spec_bytes() == bs {
        Some(t[0].1)
    } else {
        spec_lookup_name(t.drop_first(), bs)
    }
}

/// The hex text a color name stands for, if the name is in the table.
pub open spec fn spec_name_hex(bs: Seq<u8>) -> Option<&'static str> {
    spec_lookup_name(spec_table(), bs)
}

/// Look a color name up in the table.
pub fn named_color_hex(name: &str) -> (r: Option<&'static str>)
    ensures
        r == spec_name_hex(name.spec_bytes()),
{
    named_color_hex_bytes(name.as_bytes())
}

/// Look a color name up in the table by its bytes.
#[verifier::loop_isolation(false)]
pub fn named_color_hex_bytes(nb: &[u8]) -> (r: Option<&'static str>)
    ensures
        r == spec_name_hex(nb@),
{
    let t = color_table();
    let mut i: usize = 0;
    proof {
        assert(spec_table().skip(0int) =~= spec_table());
    }
    while i < t.len()
        invariant
            i <= t@.len(),
            spec_lookup_name(spec_table(), nb@) == spec_lookup_name(
                spec_table().skip(i as int),
                nb@,
            ),
        decreases t@.len() - i,
    {
        let (key, hexv) = t[i];
        proof {
            assert(spec_table().skip(i as int)[0] == spec_table()[i as int]);
            assert(spec_table().skip(i as int).drop_first() =~= spec_table().skip(i + 1));
        }
        if bytes_eq(nb, key.as_bytes()) {
            return Some(hexv);
        }
        i = i + 1;
    }
    proof {
        assert(spec_table().skip(t@.len() as int).len() == 0);
    }
    None
}

/// The first table name whose hex text's bytes equal `bs`, searched in
/// table order.
pub open spec fn spec_lookup_hex(t: Seq<(&'static str, &'static str)>, bs: Seq<u8>) -> Option<
    &'static str,
>
    decreases t.len(),
{
    if t.len() == 0 {
        None
    } else if t[0].1.spec_bytes() == bs {
        Some(t[0].0)
    } else {
        spec_lookup_hex(t.drop_first(), bs)
    }
}

/// The name a hex text stands for, if some table entry carries it.
pub open spec fn spec_hex_name(bs: Seq<u8>) -> Option<&'static str> {
    spec_lookup_hex(spec_table(), bs)
}

/// Look a hex text up in the table, giving the first matching name.
#[verifier::loop_isolation(false)]
pub fn named_color_of_hex(hex: &str) -> (r: Option<&'static str>)
    ensures
        r == spec_hex_name(hex.spec_bytes()),
{
    let t = color_table();
    let hb = hex.as_bytes();
    let mut i: usize = 0;
    proof {
        assert(spec_table().skip(0int) =~= spec_table());
    }
    while i < t.len()
        invariant
            i <= t@.len(),
            spec_lookup_hex(spec_table(), hex.spec_bytes()) == spec_lookup_hex(
                spec_table().skip(i as int),
                hex.spec_bytes(),
            ),
        decreases t@.len() - i,
    {
        let (key, hexv) = t[i];
        proof {
            assert(spec_table().skip(i as int)[0] == spec_table()[i as int]);
            assert(spec_table().skip(i as int).drop_first() =~= spec_table().skip(i + 1));
        }
        if bytes_eq(hb, hexv.as_bytes()) {
            return Some(key);
        }
        i = i + 1;
    }
    proof {
        assert(spec_lookup_hex(spec_table().skip(t@.len() as int), hex.spec_bytes()) is None);
    }
    None
}

} // verus!
