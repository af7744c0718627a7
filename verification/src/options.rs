use vstd::prelude::*;
use vstd::string::{StrSliceExecFns, StringExecFns};
use crate::errors::PbError;
use crate::text::{opt_view, str_eq, str_views};

verus! {

/// Order of a resolved file list: `Args` keeps discovery order, `Name`
/// re-sorts the final list lexicographically by canonical path.
#[derive(Clone, Copy, PartialEq, Eq, Structural, Debug)]
pub enum SortMode {
    Args,
    Name,
}

/// Everything one invocation was asked to do: the render options, the
/// ordering mode, list-only mode, and the raw input paths in argument order.
#[derive(Debug)]
pub struct Options {
    pub separator: Option<String>,
    pub header: bool,
    pub sort: SortMode,
    pub list_only: bool,
    pub inputs: Vec<String>,
}

/// The parser's state, one command-line word at a time.
pub struct ParseState {
    pub separator: Option<Seq<char>>,
    pub header: bool,
    pub sort: SortMode,
    pub list_only: bool,
    pub inputs: Seq<Seq<char>>,
    pub end_of_options: bool,
}

/// Ways the command line itself can be wrong.
pub enum ParseError {
    MissingSeparatorValue,
    MissingSortValue,
    BadSortValue,
    UnknownOption { arg: Seq<char> },
    NoInputs,
}

pub open spec fn mk_state(
    separator: Option<Seq<char>>,
    header: bool,
    sort: SortMode,
    list_only: bool,
    inputs: Seq<Seq<char>>,
    end_of_options: bool,
) -> ParseState {
    ParseState { separator, header, sort, list_only, inputs, end_of_options }
}

pub open spec fn initial_state() -> ParseState {
    mk_state(None, false, SortMode::Args, false, Seq::<Seq<char>>::empty(), false)
}

/// What parsing decides from word `i` on, given the state so far. Options
/// and inputs may be interleaved; `--` ends option recognition; `-s` /
/// `--separator` and `--sort` consume the following word as their value.
pub open spec fn parse_from(args: Seq<Seq<char>>, i: int, st: ParseState) -> Result<
    ParseState,
    ParseError,
>
    decreases args.len() - i,
{
    if i < 0 || i >= args.len() {
        Ok(st)
    } else {
        let a = args[i];
        if !st.end_of_options && a == "--"@ {
            parse_from(
                args,
                i + 1,
                mk_state(st.separator, st.header, st.sort, st.list_only, st.inputs, true),
            )
        } else if !st.end_of_options && (a == "-s"@ || a == "--separator"@) {
            if i + 1 < args.len() {
                parse_from(
                    args,
                    i + 2,
                    mk_state(
                        Some(args[i + 1]),
                        st.header,
                        st.sort,
                        st.list_only,
                        st.inputs,
                        st.end_of_options,
                    ),
                )
            } else {
                Err(ParseError::MissingSeparatorValue)
            }
        } else if !st.end_of_options && (a == "-H"@ || a == "--header"@) {
            parse_from(
                args,
                i + 1,
                mk_state(st.separator, true, st.sort, st.list_only, st.inputs, st.end_of_options),
            )
        } else if !st.end_of_options && a == "--sort"@ {
            if i + 1 < args.len() {
                if args[i + 1] == "args"@ {
                    parse_from(
                        args,
                        i + 2,
                        mk_state(
                            st.separator,
                            st.header,
                            SortMode::Args,
                            st.list_only,
                            st.inputs,
                            st.end_of_options,
                        ),
                    )
                } else if args[i + 1] == "name"@ {
                    parse_from(
                        args,
                        i + 2,
                        mk_state(
                            st.separator,
                            st.header,
                            SortMode::Name,
                            st.list_only,
                            st.inputs,
                            st.end_of_options,
                        ),
                    )
                } else {
                    Err(ParseError::BadSortValue)
                }
            } else {
                Err(ParseError::MissingSortValue)
            }
        } else if !st.end_of_options && (a == "-L"@ || a == "--list"@) {
            parse_from(
                args,
                i + 1,
                mk_state(st.separator, st.header, st.sort, true, st.inputs, st.end_of_options),
            )
        } else if !st.end_of_options && a.len() > 0 && a[0] == '-' && a != "-"@ {
            Err(ParseError::UnknownOption { arg: a })
        } else {
            parse_from(
                args,
                i + 1,
                mk_state(
                    st.separator,
                    st.header,
                    st.sort,
                    st.list_only,
                    st.inputs.push(a),
                    st.end_of_options,
                ),
            )
        }
    }
}

/// What a whole command line parses to: the final state, unless a word was
/// wrong or no input path at all was named.
pub open spec fn parse_outcome(args: Seq<Seq<char>>) -> Result<ParseState, ParseError> {
    match parse_from(args, 0, initial_state()) {
        Err(e) => Err(e),
        Ok(st) => if st.inputs.len() == 0 {
            Err(ParseError::NoInputs)
        } else {
            Ok(st)
        },
    }
}

/// Whether an exec options bundle carries exactly a parse state.
pub open spec fn options_match(o: Options, st: ParseState) -> bool {
    &&& opt_view(o.separator) == st.separator
    &&& o.header == st.header
    &&& o.sort == st.sort
    &&& o.list_only == st.list_only
    &&& str_views(o.inputs@) == st.inputs
}

/// The message each way of being wrong is reported with.
pub open spec fn usage_message(pe: ParseError) -> Seq<char> {
    match pe {
        ParseError::MissingSeparatorValue => "Missing value for separator (-s/--separator)"@,
        ParseError::MissingSortValue => "Missing value for --sort"@,
        ParseError::BadSortValue => "Sort must be one of: args, name"@,
        ParseError::UnknownOption { arg } => "Unknown option: "@ + arg,
        ParseError::NoInputs => usage_line(),
    }
}

pub open spec fn usage_line() -> Seq<char> {
    "Usage: pbcat [-s <separator>] [-H|--header] [--sort name|args] [-L|--list] <file|dir> [more ...]"@
}

/// Parse a sort-mode selector.
pub fn parse_sort(value: &str) -> (r: Result<SortMode, PbError>)
    ensures
        value@ == "args"@ ==> (r matches Ok(s) && s == SortMode::Args),
        value@ == "name"@ ==> (r matches Ok(s) && s == SortMode::Name),
        value@ != "args"@ && value@ != "name"@ ==> (r matches Err(e) && e matches PbError::Usage {
            detail,
        } && detail@ == "Sort must be one of: args, name"@),
{
    proof {
        reveal_strlit("args");
        reveal_strlit("name");
        assert("args"@[0] == 'a');
        assert("name"@[0] == 'n');
        assert("args"@ != "name"@);
    }
    if str_eq(value, "args") {
        Ok(SortMode::Args)
    } else if str_eq(value, "name") {
        Ok(SortMode::Name)
    } else {
        Err(PbError::Usage { detail: String::from_str("Sort must be one of: args, name") })
    }
}

/// Parse the command line, exactly as `parse_outcome` decides it; every
/// failure is a usage error carrying `usage_message` of what went wrong.
pub fn parse_args(args: &Vec<String>) -> (r: Result<Options, PbError>)
    ensures
        match r {
            Ok(o) => (parse_outcome(str_views(args@)) matches Ok(st) && options_match(o, st)),
            Err(e) => (parse_outcome(str_views(args@)) matches Err(pe) && e matches PbError::Usage {
                detail,
            } && detail@ == usage_message(pe)),
        },
{
    proof {
        reveal_strlit("--");
        reveal_strlit("-s");
        reveal_strlit("--separator");
        reveal_strlit("-H");
        reveal_strlit("--header");
        reveal_strlit("--sort");
        reveal_strlit("args");
        reveal_strlit("name");
        reveal_strlit("-L");
        reveal_strlit("--list");
        reveal_strlit("-");
    }
    let ghost av = str_views(args@);
    let n = args.len();
    let mut i: usize = 0;
    let mut separator: Option<String> = None;
    let mut header = false;
    let mut sort = SortMode::Args;
    let mut list_only = false;
    let mut inputs: Vec<String> = Vec::new();
    let mut end_of_options = false;
    proof {
        assert(str_views(inputs@) =~= Seq::<Seq<char>>::empty());
        assert(mk_state(
            opt_view(separator),
            header,
            sort,
            list_only,
            str_views(inputs@),
            end_of_options,
        ) == initial_state());
    }
    while i < n
        invariant
            n == args@.len(),
            av == str_views(args@),
            i <= n,
            parse_from(av, 0, initial_state()) == parse_from(
                av,
                i as int,
                mk_state(
                    opt_view(separator),
                    header,
                    sort,
                    list_only,
                    str_views(inputs@),
                    end_of_options,
                ),
            ),
        decreases n - i,
    {
        let ghost st = mk_state(
            opt_view(separator),
            header,
            sort,
            list_only,
            str_views(inputs@),
            end_of_options,
        );
        proof {
            assert(av[i as int] == args@[i as int]@);
        }
        let a = &args[i];
        if !end_of_options && str_eq(a.as_str(), "--") {
            end_of_options = true;
            i += 1;
        } else if !end_of_options && (str_eq(a.as_str(), "-s") || str_eq(a.as_str(), "--separator"))
        {
            if i + 1 < n {
                proof {
                    assert(av[i + 1] == args@[i + 1]@);
                }
                separator = Some(args[i + 1].clone());
                i += 2;
            } else {
                return Err(
                    PbError::Usage {
                        detail: String::from_str("Missing value for separator (-s/--separator)"),
                    },
                );
            }
        } else if !end_of_options && (str_eq(a.as_str(), "-H") || str_eq(a.as_str(), "--header")) {
            header = true;
            i += 1;
        } else if !end_of_options && str_eq(a.as_str(), "--sort") {
            if i + 1 < n {
                proof {
                    assert(av[i + 1] == args@[i + 1]@);
                }
                match parse_sort(args[i + 1].as_str()) {
                    Ok(s) => {
                        sort = s;
                        i += 2;
                    },
                    Err(e) => {
                        return Err(e);
                    },
                }
            } else {
                return Err(
                    PbError::Usage { detail: String::from_str("Missing value for --sort") },
                );
            }
        } else if !end_of_options && (str_eq(a.as_str(), "-L") || str_eq(a.as_str(), "--list")) {
            list_only = true;
            i += 1;
        } else if !end_of_options && a.as_str().unicode_len() > 0 && a.as_str().get_char(0) == '-'
            && !str_eq(a.as_str(), "-") {
            let mut detail = String::from_str("Unknown option: ");
            detail.append(a.as_str());
            return Err(PbError::Usage { detail });
        } else {
            inputs.push(a.clone());
            proof {
                assert(str_views(inputs@) =~= st.inputs.push(av[i as int]));
            }
            i += 1;
        }
    }
    proof {
        assert(parse_from(av, n as int, mk_state(
            opt_view(separator),
            header,
            sort,
            list_only,
            str_views(inputs@),
            end_of_options,
        )) == Ok::<ParseState, ParseError>(mk_state(
            opt_view(separator),
            header,
            sort,
            list_only,
            str_views(inputs@),
            end_of_options,
        )));
    }
    if inputs.len() == 0 {
        return Err(
            PbError::Usage {
                detail: String::from_str(
                    "Usage: pbcat [-s <separator>] [-H|--header] [--sort name|args] [-L|--list] <file|dir> [more ...]",
                ),
            },
        );
    }
    Ok(Options { separator, header, sort, list_only, inputs })
}

} // verus!
