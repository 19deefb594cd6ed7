use pixie::error::{AppError, Kind};
use pixie::model::{Color, Document};
use pixie::parser::parse;

fn doc(source: &str) -> Document {
    match parse(source) {
        Ok(d) => d,
        Err(e) => panic!("unexpected error: {}", e.message()),
    }
}

fn err(source: &str) -> AppError {
    match parse(source) {
        Ok(_) => panic!("expected an error"),
        Err(e) => e,
    }
}

fn rows(d: &Document) -> Vec<String> {
    d.pixels.iter().map(|r| r.iter().collect()).collect()
}

const README_EXAMPLE: &str = "$scale = 16\n\n# = #FF0000\n% = #000000\n\n%%%%%%%%%%%%%%%%\n%%%%%%%%%%%%%%%%\n%%%%%%####%%%%%%\n%%%%%######%%%%%\n%%%%########%%%%\n%%%%########%%%%\n%%%%%######%%%%%\n%%%%%%####%%%%%%\n%%%%%%%%%%%%%%%%\n%%%%%%%%%%%%%%%%\n";

#[test]
fn readme_example_parses() {
    let d = doc(README_EXAMPLE);
    assert_eq!(d.scale, Some(16));
    assert_eq!(d.resolution, None);
    assert!(d.auto.is_empty());
    assert_eq!(d.pixels.len(), 10);
    assert!(d.pixels.iter().all(|r| r.len() == 16));
    assert_eq!(d.palette.get('#'), Some(Color { r: 255, g: 0, b: 0 }));
    assert_eq!(d.palette.get('%'), Some(Color { r: 0, g: 0, b: 0 }));
    assert_eq!(rows(&d)[2], "%%%%%%####%%%%%%");
}

#[test]
fn format_complete_example_parses() {
    let source = "$scale = 1028\n$resolution = 1028 1028\n$auto = [scale, resolution]\n\n# = #FFFFFF\n@ = #000000\n* = #D395E5\n\n################\n##@@########@@##\n###*########*###\n";
    let d = doc(source);
    assert_eq!(d.scale, Some(1028));
    let r = d.resolution.unwrap();
    assert_eq!((r.width, r.height), (1028, 1028));
    assert_eq!(d.auto, vec!["scale".to_string(), "resolution".to_string()]);
    assert_eq!(d.palette.get('*'), Some(Color { r: 0xD3, g: 0x95, b: 0xE5 }));
    assert_eq!(d.pixels.len(), 3);
}

#[test]
fn comments_and_blank_lines_are_ignored() {
    let d = doc("; a picture\n# = #00ff00 ; green\n\n   \n## ; two pixels\n##\n");
    assert_eq!(d.palette.get('#'), Some(Color { r: 0, g: 255, b: 0 }));
    assert_eq!(rows(&d), vec!["##", "##"]);
}

#[test]
fn comment_text_does_not_change_the_document() {
    let a = doc("# = #010203\n##\n");
    let b = doc("# = #010203 ; anything = #FFFFFF\n## ;; more\n");
    assert_eq!(a.palette.get('#'), b.palette.get('#'));
    assert_eq!(a.pixels, b.pixels);
}

#[test]
fn crlf_line_endings() {
    let d = doc("# = #000000\r\n##\r\n##\r\n");
    assert_eq!(rows(&d), vec!["##", "##"]);
}

#[test]
fn later_grid_rows_keep_leading_whitespace() {
    let e = err("# = #000000\n##\n #\n");
    assert_eq!(e.kind(), Kind::Parse);
    assert_eq!(e.line(), Some(2));
    assert_eq!(e.message(), "pixel 'space' at (0, 1) has no palette entry");
}

#[test]
fn first_grid_row_is_trimmed() {
    let d = doc("# = #000000\n   ##\n##\n");
    assert_eq!(rows(&d), vec!["##", "##"]);
}

#[test]
fn a_line_with_equals_inside_the_grid_is_a_pixel_row() {
    let e = err("# = #000000\n###\n#=#\n");
    assert_eq!(e.message(), "pixel '=' at (1, 1) has no palette entry");
    assert_eq!(e.line(), Some(2));
}

#[test]
fn duplicate_palette_symbol() {
    let e = err("# = #000000\n# = #FFFFFF\n#\n");
    assert_eq!(e.kind(), Kind::Parse);
    assert_eq!(e.line(), Some(2));
    assert_eq!(e.message(), "palette symbol '#' is already defined");
}

#[test]
fn inconsistent_row_width() {
    let e = err("# = #000000\n##\n###\n");
    assert_eq!(e.line(), Some(2));
    assert_eq!(e.message(), "inconsistent row width: expected 2, found 3");
}

#[test]
fn unknown_pixel_symbol() {
    let e = err("# = #000000\n#%\n");
    assert_eq!(e.line(), Some(1));
    assert_eq!(e.message(), "pixel '%' at (1, 0) has no palette entry");
}

#[test]
fn empty_grid() {
    let e = err("# = #000000\n");
    assert_eq!(e.line(), Some(1));
    assert_eq!(e.message(), "pixel grid is empty");
}

#[test]
fn empty_source() {
    let e = err("");
    assert_eq!(e.message(), "pixel grid is empty");
}

#[test]
fn empty_palette() {
    let e = err("####\n");
    assert_eq!(e.line(), Some(1));
    assert_eq!(e.message(), "palette is empty");
}

#[test]
fn color_with_wrong_length() {
    let e = err("# = #FF00\n#\n");
    assert_eq!(e.message(), "invalid color '#FF00'; expected '#RRGGBB'");
    assert_eq!(e.line(), Some(1));
}

#[test]
fn color_without_hash() {
    let e = err("# = FF00000\n#\n");
    assert_eq!(e.message(), "invalid color 'FF00000'; expected '#RRGGBB'");
}

#[test]
fn color_with_bad_hex_digit() {
    let e = err("# = #FF00G0\n#\n");
    assert_eq!(e.message(), "invalid hexadecimal character 'G'; expected #RRGGBB");
}

#[test]
fn color_with_non_ascii_text_is_checked_by_bytes() {
    // '#' and three two-byte characters make seven bytes
    let e = err("# = #\u{e9}\u{e9}\u{e9}\n#\n");
    assert_eq!(e.message(), "invalid hexadecimal character '\u{c3}'; expected #RRGGBB");
}

#[test]
fn lowercase_and_mixed_case_hex() {
    let d = doc("# = #aBcDeF\n#\n");
    assert_eq!(d.palette.get('#'), Some(Color { r: 0xAB, g: 0xCD, b: 0xEF }));
}

#[test]
fn reserved_symbols() {
    assert_eq!(err("a = #000000\na\n").message(), "lowercase letters 'a-z' are reserved");
    assert_eq!(err("ab = #000000\n").message(), "palette symbols must contain exactly one character");
    assert_eq!(err("= #000000\n").message(), "palette symbol is empty");
}

#[test]
fn setting_errors() {
    assert_eq!(err("$ = 3\n").message(), "setting name is empty");
    assert_eq!(err("$1x = 3\n").message(), "invalid setting name '$1x'");
    assert_eq!(err("$scale =\n").message(), "setting '$scale' has no value");
    assert_eq!(err("$scale 4\n").message(), "expected '$name = value'");
    assert_eq!(err("$foo = 1\n").message(), "unknown setting '$foo'");
    let e = err("$scale = 2\n$scale = 3\n");
    assert_eq!(e.message(), "'$scale' is defined more than once");
    assert_eq!(e.line(), Some(2));
}

#[test]
fn scale_values() {
    assert_eq!(err("$scale = 0\n").message(), "'$scale' must be greater than zero");
    assert_eq!(err("$scale = -1\n").message(), "invalid '$scale': expected a positive integer");
    assert_eq!(err("$scale = 4294967296\n").message(), "invalid '$scale': expected a positive integer");
    assert_eq!(err("$scale = +\n").message(), "invalid '$scale': expected a positive integer");
    assert_eq!(doc("$scale = +4\n# = #000000\n#\n").scale, Some(4));
    assert_eq!(doc("$scale = 4294967295\n# = #000000\n#\n").scale, Some(4294967295));
}

#[test]
fn resolution_values() {
    assert_eq!(err("$resolution = 10\n").message(), "'$resolution' expects '<width> <height>'");
    assert_eq!(err("$resolution = 1 2 3\n").message(), "'$resolution' expects '<width> <height>'");
    assert_eq!(err("$resolution = x 10\n").message(), "invalid resolution width");
    assert_eq!(err("$resolution = 10 y\n").message(), "invalid resolution height");
    assert_eq!(err("$resolution = 0 10\n").message(), "resolution dimensions must be greater than zero");
    assert_eq!(
        err("$resolution = 2 2\n$resolution = 2 2\n").message(),
        "'$resolution' is defined more than once"
    );
    let r = doc("$resolution =   64\t32 \n# = #000000\n#\n").resolution.unwrap();
    assert_eq!((r.width, r.height), (64, 32));
}

#[test]
fn auto_values() {
    assert_eq!(err("$auto = resolution\n").message(), "'$auto' expects '[item, item, ...]'");
    assert_eq!(err("$auto = [ ]\n").message(), "'$auto' cannot be empty");
    assert_eq!(err("$auto = [scale,,resolution]\n").message(), "empty item in '$auto'");
    assert_eq!(err("$auto = [1x]\n").message(), "invalid auto feature '1x'");
    assert_eq!(err("$auto = [blur]\n").message(), "unknown auto feature 'blur'");
    let d = doc("$auto = [scale, scale]\n$auto = [resolution, scale]\n# = #000000\n#\n");
    assert_eq!(d.auto, vec!["scale".to_string(), "resolution".to_string()]);
}

#[test]
fn report_text_of_parse_and_usage_errors() {
    let e = err("# = #000000\n# = #000000\n#\n");
    assert_eq!(e.report_text(), "pixie error: line 2: palette symbol '#' is already defined");
    let u = AppError::usage("missing output path".to_string());
    assert_eq!(u.report_text(), "pixie usage: missing output path");
    assert_eq!(u.kind(), Kind::Usage);
    assert_eq!(u.line(), None);
}

#[test]
fn io_and_process_errors() {
    let source = std::io::Error::new(std::io::ErrorKind::Other, "disk on fire");
    let e = AppError::io("cannot read 'x.px'".to_string(), source);
    assert_eq!(e.kind(), Kind::Io);
    assert_eq!(e.message(), "cannot read 'x.px': disk on fire");
    assert_eq!(e.report_text(), "pixie error: cannot read 'x.px': disk on fire");
    let p = AppError::process("ImageMagick failed".to_string());
    assert_eq!(p.kind(), Kind::Process);
    assert_eq!(p.report_text(), "pixie error: ImageMagick failed");
    let q = AppError::parse(7, "bad".to_string());
    assert_eq!(q.kind(), Kind::Parse);
    assert_eq!(q.line(), Some(7));
}

#[test]
fn comment_appended_at_line_ends() {
    let plain = doc("$scale = 2\n# = #102030\r\n##\n##");
    let commented = doc("$scale = 2 ;scale\n# = #102030 ;red\r\n## ;row\n## ;last");
    assert_eq!(plain.scale, commented.scale);
    assert_eq!(plain.palette.get('#'), commented.palette.get('#'));
    assert_eq!(plain.pixels, commented.pixels);
}
