use pixie::cli::Cli;
use pixie::error::Kind;
use pixie::image::Image;
use pixie::model::{Color, Palette, Resolution};
use pixie::parser::parse;
use pixie::ppm::{encode, nearest_row, write_pixel};
use pixie::renderer::{output_format, terminal, write_background, OutputFormat};

fn image(source: &str) -> Result<Image, pixie::error::AppError> {
    let d = match parse(source) {
        Ok(d) => d,
        Err(e) => panic!("unexpected parse error: {}", e.message()),
    };
    Image::from_document(d)
}

const GRID: &str = "# = #FF0000\n% = #0000FF\n#%\n%#\n";

#[test]
fn default_output_is_the_source() {
    let img = image(GRID).unwrap();
    assert_eq!(img.source, Resolution { width: 2, height: 2 });
    assert_eq!(img.output, Resolution { width: 2, height: 2 });
    assert!(!img.reconstruction);
    assert!(!img.auto_resolution && !img.auto_scale);
}

#[test]
fn scale_multiplies_the_source() {
    let img = image(&format!("$scale = 3\n{}", GRID)).unwrap();
    assert_eq!(img.output, Resolution { width: 6, height: 6 });
}

#[test]
fn explicit_resolution_wins_over_scale_without_auto() {
    let img = image(&format!("$scale = 3\n$resolution = 5 7\n{}", GRID)).unwrap();
    assert_eq!(img.output, Resolution { width: 5, height: 7 });
    assert!(!img.reconstruction);
}

#[test]
fn auto_resolution_checks_the_target() {
    let img = image(&format!("$resolution = 8 8\n$auto = [resolution]\n{}", GRID)).unwrap();
    assert_eq!(img.output, Resolution { width: 8, height: 8 });
    assert!(img.reconstruction && img.auto_resolution && !img.auto_scale);

    let e = image(&format!("$resolution = 1 1\n$auto = [resolution]\n{}", GRID)).err().unwrap();
    assert_eq!(e.kind(), Kind::Usage);
    assert_eq!(e.message(), "auto resolution cannot reduce the source dimensions");

    let e = image(&format!("$resolution = 8 4\n$auto = [resolution, scale]\n{}", GRID)).err().unwrap();
    assert_eq!(e.message(), "auto resolution must preserve the source aspect ratio");
}

#[test]
fn auto_features_need_their_settings() {
    let e = image(&format!("$auto = [resolution]\n{}", GRID)).err().unwrap();
    assert_eq!(e.message(), "'resolution' is enabled in '$auto', but '$resolution' is missing");
    let e = image(&format!("$auto = [scale]\n{}", GRID)).err().unwrap();
    assert_eq!(e.message(), "'scale' is enabled in '$auto', but '$scale' is missing");
    let img = image(&format!("$scale = 2\n$auto = [scale]\n{}", GRID)).unwrap();
    assert_eq!(img.output, Resolution { width: 4, height: 4 });
    assert!(img.reconstruction && img.auto_scale);
}

#[test]
fn color_at_reads_the_palette() {
    let img = image(GRID).unwrap();
    assert_eq!(img.color_at(0, 0), Color { r: 255, g: 0, b: 0 });
    assert_eq!(img.color_at(1, 0), Color { r: 0, g: 0, b: 255 });
}

#[test]
fn distance_squared_values() {
    let black = Color { r: 0, g: 0, b: 0 };
    let white = Color { r: 255, g: 255, b: 255 };
    assert_eq!(black.distance_squared(white), 195075);
    assert_eq!(Color { r: 10, g: 20, b: 30 }.distance_squared(Color { r: 13, g: 16, b: 30 }), 25);
    assert_eq!(white.distance_squared(white), 0);
}

#[test]
fn color_hex_string() {
    assert_eq!(Color { r: 10, g: 11, b: 255 }.hex_string(), "#0A0BFF");
}

#[test]
fn resolution_new_and_scaled() {
    assert_eq!(Resolution::new(3, 4), Ok(Resolution { width: 3, height: 4 }));
    assert_eq!(
        Resolution::new(0, 4),
        Err("resolution dimensions must be greater than zero".to_string())
    );
    let r = Resolution { width: 3, height: 4 };
    assert_eq!(r.scaled(5), Ok(Resolution { width: 15, height: 20 }));
    assert_eq!(r.scaled(0), Err("resolution dimensions must be greater than zero".to_string()));
    let wide = Resolution { width: usize::MAX, height: 1 };
    assert_eq!(wide.scaled(2), Err("scaled width overflows usize".to_string()));
    let tall = Resolution { width: 1, height: usize::MAX };
    assert_eq!(tall.scaled(2), Err("scaled height overflows usize".to_string()));
}

#[test]
fn same_aspect_ratio_values() {
    let a = Resolution { width: 16, height: 9 };
    assert!(a.same_aspect_ratio(Resolution { width: 32, height: 18 }));
    assert!(!a.same_aspect_ratio(Resolution { width: 32, height: 17 }));
}

#[test]
fn palette_insert_and_get() {
    let mut p = Palette::new();
    assert!(p.is_empty());
    assert!(!p.insert('#', Color { r: 1, g: 2, b: 3 }));
    assert!(p.insert('#', Color { r: 4, g: 5, b: 6 }));
    assert!(!p.insert('@', Color { r: 7, g: 8, b: 9 }));
    assert_eq!(p.get('#'), Some(Color { r: 4, g: 5, b: 6 }));
    assert_eq!(p.get('@'), Some(Color { r: 7, g: 8, b: 9 }));
    assert_eq!(p.get('%'), None);
    assert!(p.contains_key('@') && !p.contains_key('%'));
    assert!(!p.is_empty());
}

#[test]
fn ppm_encoding() {
    let colors = vec![Color { r: 1, g: 2, b: 3 }, Color { r: 250, g: 251, b: 252 }];
    let bytes = encode(Resolution { width: 2, height: 1 }, &colors);
    let mut expected = b"P6\n2 1\n255\n".to_vec();
    expected.extend_from_slice(&[1, 2, 3, 250, 251, 252]);
    assert_eq!(bytes, expected);
    let mut out = vec![9u8];
    write_pixel(&mut out, Color { r: 7, g: 8, b: 9 });
    assert_eq!(out, vec![9, 7, 8, 9]);
}

#[test]
fn nearest_sampling_repeats_source_pixels() {
    let img = image(&format!("$scale = 2\n{}", GRID)).unwrap();
    let red = Color { r: 255, g: 0, b: 0 };
    let blue = Color { r: 0, g: 0, b: 255 };
    assert_eq!(nearest_row(&img, 0), vec![red, red, blue, blue]);
    assert_eq!(nearest_row(&img, 1), vec![red, red, blue, blue]);
    assert_eq!(nearest_row(&img, 2), vec![blue, blue, red, red]);
    assert_eq!(nearest_row(&img, 3), vec![blue, blue, red, red]);
}

#[test]
fn terminal_bytes() {
    let img = image("# = #0A0B0C\n#\n").unwrap();
    let out = terminal(&img);
    assert_eq!(out, b"\x1b[48;2;10;11;12m  \x1b[0m\n\x1b[0m".to_vec());
    let mut bg = Vec::new();
    write_background(&mut bg, Color { r: 255, g: 0, b: 7 });
    assert_eq!(bg, b"\x1b[48;2;255;0;7m  ".to_vec());
}

#[test]
fn output_format_by_extension() {
    assert_eq!(output_format(Some("ppm")).unwrap(), OutputFormat::Ppm);
    assert_eq!(output_format(Some("PpM")).unwrap(), OutputFormat::Ppm);
    assert_eq!(output_format(Some("png")).unwrap(), OutputFormat::Magick);
    let e = output_format(None).err().unwrap();
    assert_eq!(e.kind(), Kind::Usage);
    assert_eq!(e.message(), "output file must have an extension");
}

fn args(list: &[&str]) -> Vec<Vec<u8>> {
    list.iter().map(|a| a.as_bytes().to_vec()).collect()
}

#[test]
fn cli_accepts_one_action() {
    let c = Cli::parse_args(&args(&["pixie", "in.px", "-o", "out.png", "-v"])).unwrap();
    assert_eq!(c.input, b"in.px".to_vec());
    assert_eq!(c.output, Some(b"out.png".to_vec()));
    assert!(c.verbose && !c.terminal && !c.check);
    let c = Cli::parse_args(&args(&["pixie", "--terminal", "in.px"])).unwrap();
    assert!(c.terminal);
    let c = Cli::parse_args(&args(&["pixie", "-c", "in.px"])).unwrap();
    assert!(c.check);
}

#[test]
fn cli_help_and_version_need_nothing_else() {
    let c = Cli::parse_args(&args(&["pixie", "--help"])).unwrap();
    assert!(c.help);
    assert!(c.input.is_empty());
    let c = Cli::parse_args(&args(&["pixie", "-V"])).unwrap();
    assert!(c.version);
}

#[test]
fn cli_errors() {
    let msg = |list: &[&str]| Cli::parse_args(&args(list)).err().unwrap().message().to_string();
    assert_eq!(msg(&["pixie"]), "missing input file; see `pixie --help`");
    assert_eq!(msg(&["pixie", "a.px"]), "missing output path; use '-o <file>'");
    assert_eq!(msg(&["pixie", "a.px", "-o"]), "'-o' expects an output path");
    assert_eq!(msg(&["pixie", "a.px", "-o", "x", "--output", "y"]), "output path specified more than once");
    assert_eq!(msg(&["pixie", "a.px", "-x"]), "unknown option '-x'");
    assert_eq!(msg(&["pixie", "a.px", "b.px"]), "expected exactly one input file");
    assert_eq!(msg(&["pixie", "a.px", "-t", "-o", "x"]), "'-o' cannot be used with '--terminal'");
    assert_eq!(msg(&["pixie", "a.px", "-c", "-o", "x"]), "'-o' cannot be used with '--check'");
    assert_eq!(msg(&["pixie", "a.px", "-c", "-t"]), "'--terminal' cannot be combined with '--check'");
    let e = Cli::parse_args(&args(&["pixie", "-x"])).err().unwrap();
    assert_eq!(e.kind(), Kind::Usage);
}

#[test]
fn cli_double_dash_ends_options() {
    let c = Cli::parse_args(&args(&["pixie", "-o", "out.ppm", "--", "-weird.px"])).unwrap();
    assert_eq!(c.input, b"-weird.px".to_vec());
    let c = Cli::parse_args(&args(&["pixie", "-t", "--", "--"])).unwrap();
    assert_eq!(c.input, b"--".to_vec());
}

#[test]
fn cli_non_unicode_argument_is_an_input() {
    let list = vec![b"pixie".to_vec(), vec![b'-', 0xFF], b"-t".to_vec()];
    let c = Cli::parse_args(&list).unwrap();
    assert_eq!(c.input, vec![b'-', 0xFF]);
}

#[test]
fn scaling_keeps_the_aspect_ratio() {
    let r = Resolution { width: 3, height: 5 };
    let s = r.scaled(7).unwrap();
    assert!(s.same_aspect_ratio(r));
    assert_eq!(s, Resolution { width: 21, height: 35 });
}

#[test]
fn ppm_size_is_header_plus_three_bytes_per_pixel() {
    let colors = vec![Color { r: 0, g: 0, b: 0 }; 12];
    let bytes = encode(Resolution { width: 4, height: 3 }, &colors);
    assert_eq!(bytes.len(), b"P6\n4 3\n255\n".len() + 36);
}

#[test]
fn parsed_image_is_drawable_everywhere() {
    let img = image(&format!("$resolution = 3 5\n{}", GRID)).unwrap();
    assert_eq!(img.output, Resolution { width: 3, height: 5 });
    for y in 0..img.output.height {
        assert_eq!(nearest_row(&img, y).len(), 3);
    }
}

#[test]
fn nearest_pixels_covers_every_output_pixel() {
    let img = image(&format!("$scale = 2\n{}", GRID)).unwrap();
    let red = Color { r: 255, g: 0, b: 0 };
    let blue = Color { r: 0, g: 0, b: 255 };
    let pixels = pixie::ppm::nearest_pixels(&img);
    assert_eq!(pixels.len(), 16);
    assert_eq!(&pixels[0..4], &[red, red, blue, blue]);
    assert_eq!(&pixels[8..12], &[blue, blue, red, red]);
    assert_eq!(pixels[15], red);
}

#[test]
fn color_text_parses_back() {
    let c = Color { r: 0x0A, g: 0xB0, b: 0xFF };
    let source = format!("# = {}\n#\n", c.hex_string());
    let d = parse(&source).ok().unwrap();
    assert_eq!(d.palette.get('#'), Some(c));
}

#[test]
fn io_error_with_given_text() {
    let e = pixie::error::AppError::io_with_text("cannot create 'a.ppm'".to_string(), "denied");
    assert_eq!(e.kind(), Kind::Io);
    assert_eq!(e.line(), None);
    assert_eq!(e.message(), "cannot create 'a.ppm': denied");
}

#[test]
fn whole_ppm_file_for_both_paths() {
    let img = image(GRID).unwrap();
    let bytes = pixie::ppm::write(&img, &[]);
    let mut expected = b"P6\n2 2\n255\n".to_vec();
    expected.extend_from_slice(&[255, 0, 0, 0, 0, 255, 0, 0, 255, 255, 0, 0]);
    assert_eq!(bytes, expected);

    let auto = image(&format!("$resolution = 2 2\n$auto = [resolution]\n{}", GRID)).unwrap();
    let given = vec![Color { r: 1, g: 2, b: 3 }; 4];
    let bytes = pixie::ppm::write(&auto, &given);
    let mut expected = b"P6\n2 2\n255\n".to_vec();
    for _ in 0..4 {
        expected.extend_from_slice(&[1, 2, 3]);
    }
    assert_eq!(bytes, expected);
}

#[test]
fn color_parser_reads_hex_text_back() {
    let c = Color { r: 0x12, g: 0xAB, b: 0x00 };
    let text: Vec<char> = c.hex_string().chars().collect();
    assert_eq!(pixie::parser::parse_color(&text, 4).ok(), Some(c));
}
