//! The command line: options, the input file, and which of the three actions
//! (write a file, draw in the terminal, check only) is asked for.

use vstd::prelude::*;
use vstd::utf8::{
    decode_utf8, encode_utf8, encode_utf8_decode_utf8, is_ascii_chars_encode_utf8, valid_utf8,
};

use crate::error::{usage_error, AppError, ErrorView};
use crate::text::{bytes_eq_str, chars_to_string, push_str, str_chars, utf8_text};

verus! {

/// What the command line asks for. Paths are kept as the raw bytes of the
/// arguments.
#[derive(Debug)]
pub struct Cli {
    pub input: Vec<u8>,
    pub output: Option<Vec<u8>>,
    pub terminal: bool,
    pub check: bool,
    pub verbose: bool,
    pub help: bool,
    pub version: bool,
}

/// The observable content of a [`Cli`].
pub struct CliView {
    pub input: Seq<u8>,
    pub output: Option<Seq<u8>>,
    pub terminal: bool,
    pub check: bool,
    pub verbose: bool,
    pub help: bool,
    pub version: bool,
}

impl View for Cli {
    type V = CliView;

    open spec fn view(&self) -> CliView {
        CliView {
            input: self.input@,
            output: match self.output {
                Some(o) => Some(o@),
                None => None,
            },
            terminal: self.terminal,
            check: self.check,
            verbose: self.verbose,
            help: self.help,
            version: self.version,
        }
    }
}

/// What has been read of the command line so far.
pub struct Scan {
    pub cli: CliView,
    pub input: Option<Seq<u8>>,
    pub end_of_options: bool,
}

/// The state before the first argument after the program name.
pub open spec fn initial_scan() -> Scan {
    Scan {
        cli: CliView {
            input: seq![],
            output: None,
            terminal: false,
            check: false,
            verbose: false,
            help: false,
            version: false,
        },
        input: None,
        end_of_options: false,
    }
}

/// Whether `arg` is the option `short` or `long`.
pub open spec fn is_option(arg: Seq<u8>, short: Seq<char>, long: Seq<char>) -> bool {
    arg == encode_utf8(short) || arg == encode_utf8(long)
}

/// The scan with `arg` as the input file, unless there already is one.
pub open spec fn take_input(st: Scan, arg: Seq<u8>) -> Result<Scan, ErrorView> {
    if st.input is Some {
        Err(usage_error("expected exactly one input file"@))
    } else {
        Ok(Scan { input: Some(arg), ..st })
    }
}

/// The scan of the arguments `args[k..]`.
pub open spec fn scan_args(args: Seq<Seq<u8>>, k: int, st: Scan) -> Result<Scan, ErrorView>
    decreases args.len() - k,
{
    if k < 0 || k >= args.len() {
        Ok(st)
    } else {
        let arg = args[k];
        if st.end_of_options {
            match take_input(st, arg) {
                Err(e) => Err(e),
                Ok(next) => scan_args(args, k + 1, next),
            }
        } else if arg == encode_utf8("--"@) {
            scan_args(args, k + 1, Scan { end_of_options: true, ..st })
        } else if is_option(arg, "-h"@, "--help"@) {
            scan_args(args, k + 1, Scan { cli: CliView { help: true, ..st.cli }, ..st })
        } else if is_option(arg, "-V"@, "--version"@) {
            scan_args(args, k + 1, Scan { cli: CliView { version: true, ..st.cli }, ..st })
        } else if is_option(arg, "-t"@, "--terminal"@) {
            scan_args(args, k + 1, Scan { cli: CliView { terminal: true, ..st.cli }, ..st })
        } else if is_option(arg, "-c"@, "--check"@) {
            scan_args(args, k + 1, Scan { cli: CliView { check: true, ..st.cli }, ..st })
        } else if is_option(arg, "-v"@, "--verbose"@) {
            scan_args(args, k + 1, Scan { cli: CliView { verbose: true, ..st.cli }, ..st })
        } else if is_option(arg, "-o"@, "--output"@) {
            if k + 1 >= args.len() {
                Err(usage_error("'-o' expects an output path"@))
            } else if st.cli.output is Some {
                Err(usage_error("output path specified more than once"@))
            } else {
                scan_args(
                    args,
                    k + 2,
                    Scan { cli: CliView { output: Some(args[k + 1]), ..st.cli }, ..st },
                )
            }
        } else if valid_utf8(arg) && arg.len() > 0 && arg[0] == 45 {
            Err(usage_error("unknown option '"@ + decode_utf8(arg) + "'"@))
        } else {
            match take_input(st, arg) {
                Err(e) => Err(e),
                Ok(next) => scan_args(args, k + 1, next),
            }
        }
    }
}

/// The checks after the last argument: help and version need nothing else;
/// otherwise there must be an input file and exactly one action.
pub open spec fn finish_scan(st: Scan) -> Result<CliView, ErrorView> {
    let cli = st.cli;
    if cli.help || cli.version {
        Ok(cli)
    } else {
        match st.input {
            None => Err(usage_error("missing input file; see `pixie --help`"@)),
            Some(input) => if cli.terminal && cli.output is Some {
                Err(usage_error("'-o' cannot be used with '--terminal'"@))
            } else if cli.check && cli.output is Some {
                Err(usage_error("'-o' cannot be used with '--check'"@))
            } else if cli.terminal && cli.check {
                Err(usage_error("'--terminal' cannot be combined with '--check'"@))
            } else if !cli.terminal && !cli.check && cli.output is None {
                Err(usage_error("missing output path; use '-o <file>'"@))
            } else {
                Ok(CliView { input, ..cli })
            },
        }
    }
}

/// What a command line (the program name first) asks for.
pub open spec fn cli_of(args: Seq<Seq<u8>>) -> Result<CliView, ErrorView> {
    match scan_args(args, 1, initial_scan()) {
        Err(e) => Err(e),
        Ok(st) => finish_scan(st),
    }
}

/// The byte vectors' contents.
pub open spec fn byte_rows(v: Seq<Vec<u8>>) -> Seq<Seq<u8>> {
    v.map_values(|a: Vec<u8>| a@)
}

/// Records `value` as the input file, unless there already is one.
fn assign_input(input: &mut Option<Vec<u8>>, value: Vec<u8>) -> (r: Result<(), AppError>)
    ensures
        match *old(input) {
            Some(_) => r matches Err(e) && e@ == usage_error("expected exactly one input file"@)
                && *final(input) == *old(input),
            None => r is Ok && *final(input) == Some(value),
        },
{
    if input.is_some() {
        return Err(AppError::usage(String::from_str("expected exactly one input file")));
    }
    *input = Some(value);
    Ok(())
}

/// The optional byte vector's contents.
pub open spec fn bytes_opt(v: Option<Vec<u8>>) -> Option<Seq<u8>> {
    match v {
        Some(b) => Some(b@),
        None => None,
    }
}

impl Cli {
    /// Reads the command line; `args[0]` is the program name.
    pub fn parse_args(args: &Vec<Vec<u8>>) -> (r: Result<Cli, AppError>)
        ensures
            match r {
                Ok(c) => cli_of(byte_rows(args@)) == Ok::<CliView, ErrorView>(c@),
                Err(e) => cli_of(byte_rows(args@)) == Err::<CliView, ErrorView>(e@),
            },
    {
        let ghost all = byte_rows(args@);
        let mut cli = Cli {
            input: Vec::new(),
            output: None,
            terminal: false,
            check: false,
            verbose: false,
            help: false,
            version: false,
        };
        let mut input: Option<Vec<u8>> = None;
        let mut end_of_options = false;
        let mut k: usize = 1;
        assert(cli@.input =~= Seq::<u8>::empty());
        assert((Scan { cli: cli@, input: bytes_opt(input), end_of_options }) == initial_scan());
        while k < args.len()
            invariant
                k >= 1,
                all == byte_rows(args@),
                cli@.input == Seq::<u8>::empty(),
                scan_args(all, 1, initial_scan()) == scan_args(
                    all,
                    k as int,
                    Scan { cli: cli@, input: bytes_opt(input), end_of_options },
                ),
            decreases args@.len() - k,
        {
            let arg = &args[k];
            assert(all[k as int] == arg@);
            let ghost st = Scan { cli: cli@, input: bytes_opt(input), end_of_options };
            if end_of_options {
                match assign_input(&mut input, arg.clone()) {
                    Ok(()) => {},
                    Err(e) => {
                        return Err(e);
                    },
                }
                k = k + 1;
            } else if bytes_eq_str(arg.as_slice(), "--") {
                end_of_options = true;
                k = k + 1;
            } else if bytes_eq_str(arg.as_slice(), "-h") || bytes_eq_str(arg.as_slice(), "--help") {
                cli.help = true;
                k = k + 1;
            } else if bytes_eq_str(arg.as_slice(), "-V") || bytes_eq_str(
                arg.as_slice(),
                "--version",
            ) {
                cli.version = true;
                k = k + 1;
            } else if bytes_eq_str(arg.as_slice(), "-t") || bytes_eq_str(
                arg.as_slice(),
                "--terminal",
            ) {
                cli.terminal = true;
                k = k + 1;
            } else if bytes_eq_str(arg.as_slice(), "-c") || bytes_eq_str(arg.as_slice(), "--check") {
                cli.check = true;
                k = k + 1;
            } else if bytes_eq_str(arg.as_slice(), "-v") || bytes_eq_str(
                arg.as_slice(),
                "--verbose",
            ) {
                cli.verbose = true;
                k = k + 1;
            } else if bytes_eq_str(arg.as_slice(), "-o") || bytes_eq_str(
                arg.as_slice(),
                "--output",
            ) {
                if k + 1 >= args.len() {
                    return Err(AppError::usage(String::from_str("'-o' expects an output path")));
                }
                if cli.output.is_some() {
                    return Err(
                        AppError::usage(String::from_str("output path specified more than once")),
                    );
                }
                let value = args[k + 1].clone();
                assert(all[k + 1] == value@);
                cli.output = Some(value);
                k = k + 2;
            } else {
                match utf8_text(arg.as_slice()) {
                    Some(text) if arg.len() > 0 && arg[0] == 45 => {
                        proof {
                            encode_utf8_decode_utf8(text@);
                        }
                        let mut message = str_chars("unknown option '");
                        push_str(&mut message, text);
                        push_str(&mut message, "'");
                        return Err(AppError::usage(chars_to_string(message.as_slice())));
                    },
                    _ => {
                        match assign_input(&mut input, arg.clone()) {
                            Ok(()) => {},
                            Err(e) => {
                                return Err(e);
                            },
                        }
                        k = k + 1;
                    },
                }
            }
        }
        if cli.help || cli.version {
            return Ok(cli);
        }
        cli.input = match input {
            Some(i) => i,
            None => {
                return Err(
                    AppError::usage(String::from_str("missing input file; see `pixie --help`")),
                );
            },
        };
        if cli.terminal && cli.output.is_some() {
            return Err(AppError::usage(String::from_str("'-o' cannot be used with '--terminal'")));
        }
        if cli.check && cli.output.is_some() {
            return Err(AppError::usage(String::from_str("'-o' cannot be used with '--check'")));
        }
        if cli.terminal && cli.check {
            return Err(
                AppError::usage(String::from_str("'--terminal' cannot be combined with '--check'")),
            );
        }
        if !cli.terminal && !cli.check && cli.output.is_none() {
            return Err(AppError::usage(String::from_str("missing output path; use '-o <file>'")));
        }
        Ok(cli)
    }
}

/// The bytes of the option names, one by one.
proof fn lemma_option_bytes()
    ensures
        encode_utf8("--"@).len() == 2,
        encode_utf8("--"@)[0] == 45,
        encode_utf8("--"@)[1] == 45,
        encode_utf8("-h"@).len() == 2,
        encode_utf8("-h"@)[0] == 45,
        encode_utf8("-h"@)[1] == 104,
        encode_utf8("--help"@).len() == 6,
        encode_utf8("--help"@)[0] == 45,
        encode_utf8("--help"@)[1] == 45,
        encode_utf8("--help"@)[2] == 104,
        encode_utf8("--help"@)[3] == 101,
        encode_utf8("--help"@)[4] == 108,
        encode_utf8("--help"@)[5] == 112,
        encode_utf8("-V"@).len() == 2,
        encode_utf8("-V"@)[0] == 45,
        encode_utf8("-V"@)[1] == 86,
        encode_utf8("--version"@).len() == 9,
        encode_utf8("--version"@)[0] == 45,
        encode_utf8("--version"@)[1] == 45,
        encode_utf8("--version"@)[2] == 118,
        encode_utf8("--version"@)[3] == 101,
        encode_utf8("--version"@)[4] == 114,
        encode_utf8("--version"@)[5] == 115,
        encode_utf8("--version"@)[6] == 105,
        encode_utf8("--version"@)[7] == 111,
        encode_utf8("--version"@)[8] == 110,
        encode_utf8("-t"@).len() == 2,
        encode_utf8("-t"@)[0] == 45,
        encode_utf8("-t"@)[1] == 116,
        encode_utf8("--terminal"@).len() == 10,
        encode_utf8("--terminal"@)[0] == 45,
        encode_utf8("--terminal"@)[1] == 45,
        encode_utf8("--terminal"@)[2] == 116,
        encode_utf8("--terminal"@)[3] == 101,
        encode_utf8("--terminal"@)[4] == 114,
        encode_utf8("--terminal"@)[5] == 109,
        encode_utf8("--terminal"@)[6] == 105,
        encode_utf8("--terminal"@)[7] == 110,
        encode_utf8("--terminal"@)[8] == 97,
        encode_utf8("--terminal"@)[9] == 108,
        encode_utf8("-c"@).len() == 2,
        encode_utf8("-c"@)[0] == 45,
        encode_utf8("-c"@)[1] == 99,
        encode_utf8("--check"@).len() == 7,
        encode_utf8("--check"@)[0] == 45,
        encode_utf8("--check"@)[1] == 45,
        encode_utf8("--check"@)[2] == 99,
        encode_utf8("--check"@)[3] == 104,
        encode_utf8("--check"@)[4] == 101,
        encode_utf8("--check"@)[5] == 99,
        encode_utf8("--check"@)[6] == 107,
        encode_utf8("-v"@).len() == 2,
        encode_utf8("-v"@)[0] == 45,
        encode_utf8("-v"@)[1] == 118,
        encode_utf8("--verbose"@).len() == 9,
        encode_utf8("--verbose"@)[0] == 45,
        encode_utf8("--verbose"@)[1] == 45,
        encode_utf8("--verbose"@)[2] == 118,
        encode_utf8("--verbose"@)[3] == 101,
        encode_utf8("--verbose"@)[4] == 114,
        encode_utf8("--verbose"@)[5] == 98,
        encode_utf8("--verbose"@)[6] == 111,
        encode_utf8("--verbose"@)[7] == 115,
        encode_utf8("--verbose"@)[8] == 101,
        encode_utf8("-o"@).len() == 2,
        encode_utf8("-o"@)[0] == 45,
        encode_utf8("-o"@)[1] == 111,
        encode_utf8("--output"@).len() == 8,
        encode_utf8("--output"@)[0] == 45,
        encode_utf8("--output"@)[1] == 45,
        encode_utf8("--output"@)[2] == 111,
        encode_utf8("--output"@)[3] == 117,
        encode_utf8("--output"@)[4] == 116,
        encode_utf8("--output"@)[5] == 112,
        encode_utf8("--output"@)[6] == 117,
        encode_utf8("--output"@)[7] == 116,
{
    reveal_strlit("--");
    is_ascii_chars_encode_utf8("--"@);
    reveal_strlit("-h");
    is_ascii_chars_encode_utf8("-h"@);
    reveal_strlit("--help");
    is_ascii_chars_encode_utf8("--help"@);
    reveal_strlit("-V");
    is_ascii_chars_encode_utf8("-V"@);
    reveal_strlit("--version");
    is_ascii_chars_encode_utf8("--version"@);
    reveal_strlit("-t");
    is_ascii_chars_encode_utf8("-t"@);
    reveal_strlit("--terminal");
    is_ascii_chars_encode_utf8("--terminal"@);
    reveal_strlit("-c");
    is_ascii_chars_encode_utf8("-c"@);
    reveal_strlit("--check");
    is_ascii_chars_encode_utf8("--check"@);
    reveal_strlit("-v");
    is_ascii_chars_encode_utf8("-v"@);
    reveal_strlit("--verbose");
    is_ascii_chars_encode_utf8("--verbose"@);
    reveal_strlit("-o");
    is_ascii_chars_encode_utf8("-o"@);
    reveal_strlit("--output");
    is_ascii_chars_encode_utf8("--output"@);
}

/// The two spellings of a documented option, short and long.
pub open spec fn option_spellings(short: Seq<char>, long: Seq<char>) -> bool {
    ||| short == "-h"@ && long == "--help"@
    ||| short == "-V"@ && long == "--version"@
    ||| short == "-t"@ && long == "--terminal"@
    ||| short == "-c"@ && long == "--check"@
    ||| short == "-v"@ && long == "--verbose"@
    ||| short == "-o"@ && long == "--output"@
}

/// Two argument lists that agree from position `j` on are read alike from
/// there.
proof fn lemma_scan_same_suffix(a: Seq<Seq<u8>>, b: Seq<Seq<u8>>, j: int, st: Scan)
    requires
        a.len() == b.len(),
        0 <= j,
        forall|i: int| j <= i < a.len() ==> a[i] == b[i],
    ensures
        scan_args(a, j, st) == scan_args(b, j, st),
    decreases a.len() - j,
{
    if j < a.len() {
        let arg = a[j];
        assert(arg == b[j]);
        if st.end_of_options {
            if let Ok(next) = take_input(st, arg) {
                lemma_scan_same_suffix(a, b, j + 1, next);
            }
        } else if arg == encode_utf8("--"@) {
            lemma_scan_same_suffix(a, b, j + 1, Scan { end_of_options: true, ..st });
        } else if is_option(arg, "-h"@, "--help"@) {
            lemma_scan_same_suffix(a, b, j + 1, Scan { cli: CliView { help: true, ..st.cli }, ..st });
        } else if is_option(arg, "-V"@, "--version"@) {
            lemma_scan_same_suffix(
                a,
                b,
                j + 1,
                Scan { cli: CliView { version: true, ..st.cli }, ..st },
            );
        } else if is_option(arg, "-t"@, "--terminal"@) {
            lemma_scan_same_suffix(
                a,
                b,
                j + 1,
                Scan { cli: CliView { terminal: true, ..st.cli }, ..st },
            );
        } else if is_option(arg, "-c"@, "--check"@) {
            lemma_scan_same_suffix(a, b, j + 1, Scan { cli: CliView { check: true, ..st.cli }, ..st });
        } else if is_option(arg, "-v"@, "--verbose"@) {
            lemma_scan_same_suffix(
                a,
                b,
                j + 1,
                Scan { cli: CliView { verbose: true, ..st.cli }, ..st },
            );
        } else if is_option(arg, "-o"@, "--output"@) {
            if j + 1 < a.len() && st.cli.output is None {
                assert(a[j + 1] == b[j + 1]);
                lemma_scan_same_suffix(
                    a,
                    b,
                    j + 2,
                    Scan { cli: CliView { output: Some(a[j + 1]), ..st.cli }, ..st },
                );
            }
        } else if !(valid_utf8(arg) && arg.len() > 0 && arg[0] == 45) {
            if let Ok(next) = take_input(st, arg) {
                lemma_scan_same_suffix(a, b, j + 1, next);
            }
        }
    }
}

/// Before `--`, a documented long option does what its short form does: an
/// argument list with the long form at position `k` is read exactly as the
/// same list with the short form there.
pub proof fn lemma_long_option(
    args: Seq<Seq<u8>>,
    k: int,
    st: Scan,
    short: Seq<char>,
    long: Seq<char>,
)
    requires
        option_spellings(short, long),
        0 <= k < args.len(),
        !st.end_of_options,
    ensures
        scan_args(args.update(k, encode_utf8(long)), k, st) == scan_args(
            args.update(k, encode_utf8(short)),
            k,
            st,
        ),
{
    lemma_option_bytes();
    let a = args.update(k, encode_utf8(long));
    let b = args.update(k, encode_utf8(short));
    assert(a[k] == encode_utf8(long));
    assert(b[k] == encode_utf8(short));
    let cli = st.cli;
    if short == "-h"@ {
        lemma_scan_same_suffix(a, b, k + 1, Scan { cli: CliView { help: true, ..cli }, ..st });
    } else if short == "-V"@ {
        lemma_scan_same_suffix(a, b, k + 1, Scan { cli: CliView { version: true, ..cli }, ..st });
    } else if short == "-t"@ {
        lemma_scan_same_suffix(a, b, k + 1, Scan { cli: CliView { terminal: true, ..cli }, ..st });
    } else if short == "-c"@ {
        lemma_scan_same_suffix(a, b, k + 1, Scan { cli: CliView { check: true, ..cli }, ..st });
    } else if short == "-v"@ {
        lemma_scan_same_suffix(a, b, k + 1, Scan { cli: CliView { verbose: true, ..cli }, ..st });
    } else if k + 1 < args.len() && cli.output is None {
        assert(a[k + 1] == b[k + 1]);
        lemma_scan_same_suffix(
            a,
            b,
            k + 2,
            Scan { cli: CliView { output: Some(a[k + 1]), ..cli }, ..st },
        );
    }
}

/// Reading up to a documented option at position `k`, with neither `--` nor
/// `-o` before it, goes the same way whichever spelling stands at `k`.
proof fn lemma_scan_to_option(
    args: Seq<Seq<u8>>,
    j: int,
    k: int,
    st: Scan,
    short: Seq<char>,
    long: Seq<char>,
)
    requires
        option_spellings(short, long),
        0 <= j <= k < args.len(),
        !st.end_of_options,
        forall|i: int|
            j <= i < k ==> #[trigger] args[i] != encode_utf8("--"@) && args[i] != encode_utf8(
                "-o"@,
            ) && args[i] != encode_utf8("--output"@),
    ensures
        scan_args(args.update(k, encode_utf8(long)), j, st) == scan_args(
            args.update(k, encode_utf8(short)),
            j,
            st,
        ),
    decreases k - j,
{
    if j == k {
        lemma_long_option(args, k, st, short, long);
    } else {
        let a = args.update(k, encode_utf8(long));
        let b = args.update(k, encode_utf8(short));
        let arg = args[j];
        assert(a[j] == arg && b[j] == arg);
        let cli = st.cli;
        if is_option(arg, "-h"@, "--help"@) {
            lemma_scan_to_option(
                args,
                j + 1,
                k,
                Scan { cli: CliView { help: true, ..cli }, ..st },
                short,
                long,
            );
        } else if is_option(arg, "-V"@, "--version"@) {
            lemma_scan_to_option(
                args,
                j + 1,
                k,
                Scan { cli: CliView { version: true, ..cli }, ..st },
                short,
                long,
            );
        } else if is_option(arg, "-t"@, "--terminal"@) {
            lemma_scan_to_option(
                args,
                j + 1,
                k,
                Scan { cli: CliView { terminal: true, ..cli }, ..st },
                short,
                long,
            );
        } else if is_option(arg, "-c"@, "--check"@) {
            lemma_scan_to_option(
                args,
                j + 1,
                k,
                Scan { cli: CliView { check: true, ..cli }, ..st },
                short,
                long,
            );
        } else if is_option(arg, "-v"@, "--verbose"@) {
            lemma_scan_to_option(
                args,
                j + 1,
                k,
                Scan { cli: CliView { verbose: true, ..cli }, ..st },
                short,
                long,
            );
        } else if !(valid_utf8(arg) && arg.len() > 0 && arg[0] == 45) {
            if let Ok(next) = take_input(st, arg) {
                lemma_scan_to_option(args, j + 1, k, next, short, long);
            }
        }
    }
}

/// On a whole command line, a documented long option does what its short form
/// does: with neither `--` nor `-o` before position `k`, the command line with
/// the long form there is read exactly as the one with the short form.
pub proof fn lemma_long_option_command_line(
    args: Seq<Seq<u8>>,
    k: int,
    short: Seq<char>,
    long: Seq<char>,
)
    requires
        option_spellings(short, long),
        1 <= k < args.len(),
        forall|i: int|
            1 <= i < k ==> #[trigger] args[i] != encode_utf8("--"@) && args[i] != encode_utf8(
                "-o"@,
            ) && args[i] != encode_utf8("--output"@),
    ensures
        cli_of(args.update(k, encode_utf8(long))) == cli_of(args.update(k, encode_utf8(short))),
{
    lemma_scan_to_option(args, 1, k, initial_scan(), short, long);
}

/// After `--`, every argument is an input path, whatever it looks like: the
/// options read before stay as they are, and the rest of the command line is
/// accepted exactly when it gives at most one input path in all, which then is
/// the input.
pub proof fn lemma_after_end_of_options(args: Seq<Seq<u8>>, k: int, st: Scan)
    requires
        st.end_of_options,
        0 <= k <= args.len(),
    ensures
        (scan_args(args, k, st) is Ok) <==> (k == args.len() || (k + 1 == args.len()
            && st.input is None)),
        scan_args(args, k, st) is Ok ==> scan_args(args, k, st) == Ok::<Scan, ErrorView>(
            Scan {
                input: if k < args.len() {
                    Some(args[k])
                } else {
                    st.input
                },
                ..st
            },
        ),
{
    if k < args.len() && st.input is None {
        let next = Scan { input: Some(args[k]), ..st };
        assert(take_input(st, args[k]) == Ok::<Scan, ErrorView>(next));
        if k + 1 < args.len() {
            assert(take_input(next, args[k + 1]) is Err);
            assert(scan_args(args, k + 1, next) is Err);
        } else {
            assert(scan_args(args, k + 1, next) == Ok::<Scan, ErrorView>(next));
        }
    }
}

/// Before `--`, `-o` and `--output` take the next argument as the output path,
/// whatever it looks like, and go on after it; with no argument after them,
/// or a second output path, the command line is refused.
pub proof fn lemma_output_option(args: Seq<Seq<u8>>, k: int, st: Scan)
    requires
        !st.end_of_options,
        0 <= k < args.len(),
        args[k] == encode_utf8("-o"@) || args[k] == encode_utf8("--output"@),
    ensures
        k + 1 == args.len() ==> scan_args(args, k, st) == Err::<Scan, ErrorView>(
            usage_error("'-o' expects an output path"@),
        ),
        k + 1 < args.len() && st.cli.output is Some ==> scan_args(args, k, st) == Err::<
            Scan,
            ErrorView,
        >(usage_error("output path specified more than once"@)),
        k + 1 < args.len() && st.cli.output is None ==> scan_args(args, k, st) == scan_args(
            args,
            k + 2,
            Scan { cli: CliView { output: Some(args[k + 1]), ..st.cli }, ..st },
        ),
{
    lemma_option_bytes();
}

/// A command line that is accepted asks for help, for the version, or for
/// exactly one action: writing an output file, drawing in the terminal, or
/// checking the document.
pub proof fn lemma_one_action(args: Seq<Seq<u8>>)
    ensures
        cli_of(args) matches Ok(c) ==> c.help || c.version || (c.terminal && !c.check
            && c.output is None) || (!c.terminal && c.check && c.output is None) || (!c.terminal
            && !c.check && c.output is Some),
{
}

} // verus!
