use bwdraw::{Canvas, DuoPixel, Row};

#[test]
fn from_even_vec_of_bools_to_canvas() {
    let bools = vec![
        vec![true, true, false, false],
        vec![true, false, true, false],
    ];
    let expected = vec![Row(vec![
        DuoPixel {
            upper: true,
            lower: true,
        },
        DuoPixel {
            upper: true,
            lower: false,
        },
        DuoPixel {
            upper: false,
            lower: true,
        },
        DuoPixel {
            upper: false,
            lower: false,
        },
    ])];
    assert_eq!(Canvas::from(bools).into_rows(), expected);
}

#[test]
fn from_odd_vec_of_bools_to_canvas() {
    let bools = vec![
        vec![true, false, true, false],
        vec![false, true, false, true],
        vec![true, false, true, false],
    ];
    let expected = vec![
        Row(vec![
            DuoPixel {
                upper: true,
                lower: false,
            },
            DuoPixel {
                upper: false,
                lower: true,
            },
            DuoPixel {
                upper: true,
                lower: false,
            },
            DuoPixel {
                upper: false,
                lower: true,
            },
        ]),
        Row(vec![
            DuoPixel {
                upper: true,
                lower: false,
            },
            DuoPixel {
                upper: false,
                lower: false,
            },
            DuoPixel {
                upper: true,
                lower: false,
            },
            DuoPixel {
                upper: false,
                lower: false,
            },
        ]),
    ];
    assert_eq!(Canvas::from(bools).into_rows(), expected);
}

#[test]
fn from_empty_input_to_canvas() {
    let input: Vec<Vec<bool>> = Vec::new();

    let expected_output = "";

    let picture: Canvas = input.into();
    let output_string: String = picture.into();

    assert_eq!(output_string, expected_output);
}

#[test]
fn even_matrix_round_trips() {
    let bools = vec![
        vec![true, false, false],
        vec![false, false, true],
        vec![true, true, true],
        vec![false, true, false],
    ];
    let canvas = Canvas::from_matrix(&bools);
    assert_eq!(canvas.to_matrix(), bools);
    let back: Vec<Vec<bool>> = canvas.into();
    assert_eq!(back, bools);
}

#[test]
fn odd_matrix_is_padded_with_an_off_row() {
    let odd = vec![vec![true, true], vec![false, true], vec![true, true]];
    let mut padded = odd.clone();
    padded.push(vec![false, false]);
    let a = Canvas::from_matrix(&odd);
    let b = Canvas::from_matrix(&padded);
    assert_eq!(a, b);
    let rows = a.into_rows();
    assert_eq!(rows.len(), 2);
    assert!(rows[1].0.iter().all(|p| !p.lower));
}

#[test]
fn ragged_matrix_is_cut_to_shortest_row() {
    let ragged = vec![vec![true, true, true], vec![false, true], vec![true, true, true, true]];
    let canvas = Canvas::from_matrix(&ragged);
    assert_eq!(
        canvas.to_matrix(),
        vec![vec![true, true], vec![false, true], vec![true, true], vec![false, false]]
    );
}

#[test]
fn example_row_serializes_to_four_glyphs() {
    let bools = vec![
        vec![true, true, false, false],
        vec![true, false, true, false],
    ];
    let canvas = Canvas::from(bools);
    assert_eq!(canvas.to_string(), "\u{2588}\u{2580}\u{2584} \n");
    let text: String = canvas.into();
    assert_eq!(text, "\u{2588}\u{2580}\u{2584} \n");
}

#[test]
fn two_rows_serialize_to_two_lines() {
    let canvas = Canvas::from_matrix(&vec![vec![true], vec![false], vec![false], vec![false]]);
    assert_eq!(canvas.to_string(), "\u{2580}\n \n");
}

#[test]
fn row_conversions() {
    let row = Row::from((vec![true, false, true], vec![true, true]));
    assert_eq!(
        row,
        Row(vec![DuoPixel::new(true, true), DuoPixel::new(false, true)])
    );
    let text: String = row.clone().into();
    assert_eq!(text, "\u{2588}\u{2584}");
    let halves: (Vec<bool>, Vec<bool>) = row.into();
    assert_eq!(halves, (vec![true, false], vec![true, true]));
}
