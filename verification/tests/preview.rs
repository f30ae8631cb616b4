use printhub::preview::{
    parse_color, parse_number, picture, smooth, walk, Color, Line, Point, MM, SIDE, SIZE,
};

fn lines(gcode: &str) -> (Vec<Line>, Vec<Color>) {
    let found = walk(gcode.as_bytes());
    (found.lines, found.colors)
}

/// A point, in tenths of a millimetre.
fn point(x: i128, y: i128, z: i128) -> Point {
    Point {
        x: x * MM / 10,
        y: y * MM / 10,
        z: z * MM / 10,
    }
}

fn chars(text: &str) -> Vec<char> {
    text.chars().collect()
}

#[test]
fn only_extruding_moves_of_the_print_are_drawn() {
    let (found, colors) = lines(
        "\
;TYPE:Custom
G90
M83
G1 X0 Y0 Z0.2 F9000
G1 X100 E5 ; purge line
;TYPE:Outer wall
G0 X10 Y10
G1 X20 Y10 E0.5
G1 E-0.8 ; retract
G1 X20 Y20 E0
;TYPE:Support interface
G1 X40 Y40 E1
;TYPE:Support
G1 X20 Y20 E1
T1
;TYPE:Sparse infill
G91
G1 X5 Y5 E0.2
M82
G92 E10
G1 X5 E10.5
G1 X5 E10.5
; filament_colour = #F2754E;#2850DF
",
    );
    let summary: Vec<_> = found
        .iter()
        .map(|line| (line.from, line.to, line.tool, line.wall))
        .collect();
    assert_eq!(
        summary,
        [
            (point(100, 100, 2), point(200, 100, 2), 0, true),
            (point(200, 200, 2), point(250, 250, 2), 1, false),
            (point(250, 250, 2), point(300, 250, 2), 1, false),
        ],
        "absolute E after M82 extrudes only when it grows"
    );
    assert_eq!(
        colors,
        [
            Color { r: 0xF2, g: 0x75, b: 0x4E },
            Color { r: 0x28, g: 0x50, b: 0xDF }
        ]
    );
}

#[test]
fn numbers_read_like_str_parse() {
    for text in ["10", "-0.8", "-.8", "123.4567", "0.", "7.000001", "250"] {
        let read = parse_number(&chars(text)).map(|n| n as f64 / MM as f64);
        let expected: f64 = text.parse().unwrap();
        assert!((read.unwrap() - expected).abs() < 1e-9, "{text}");
    }
    for text in ["", "-", ".", "1e3", "1.2.3", "+1", "12x"] {
        assert_eq!(parse_number(&chars(text)), None, "{text}");
    }
}

#[test]
fn colours_without_a_reading_are_grey() {
    assert_eq!(parse_color(&chars(" #F2754E ")), Color { r: 0xF2, g: 0x75, b: 0x4E });
    assert_eq!(parse_color(&chars("orange")), Color { r: 0x9a, g: 0xa0, b: 0xa6 });
}

#[test]
fn nothing_printed_draws_nothing() {
    let (found, _) = lines("G28\nG1 X10 Y10\n");
    assert!(found.is_empty());
}

#[test]
fn samples_are_averaged_into_a_picture() {
    let red = Color { r: 200, g: 0, b: 0 };
    let mut covered = vec![false; SIDE * SIDE];
    let color = vec![red; SIDE * SIDE];
    for y in 0..2 {
        for x in 0..2 {
            covered[y * SIDE + x] = true;
        }
    }
    covered[2] = true;
    let rgba = smooth(&covered, &color);
    assert_eq!(rgba.len(), SIZE * SIZE * 4);
    assert_eq!(rgba[..4], [200, 0, 0, 255]);
    assert_eq!(rgba[4], 200);
    assert_eq!(rgba[7], 255 / 4);
    assert_eq!(rgba[11], 0, "nothing was drawn there");

    let file = picture(&covered, &color).unwrap();
    let mut reader = png::Decoder::new(std::io::Cursor::new(file)).read_info().unwrap();
    let mut pixels = vec![0; reader.output_buffer_size().unwrap()];
    let info = reader.next_frame(&mut pixels).unwrap();
    assert_eq!((info.width, info.height), (SIZE as u32, SIZE as u32));
    assert_eq!(pixels, rgba);
}
