use vstd::prelude::*;

verus! {

/// The command a first CLI word names.
#[derive(Clone, Copy, PartialEq, Eq, Structural, Debug)]
pub enum Command {
    List,
    AddFeed,
    RemoveFeed,
    EditFeed,
}

/// The command a first CLI word names, if any. Editing and removing
/// feeds are referenced but unimplemented, so no word names them.
pub open spec fn spec_command_from_token(t: Seq<char>) -> Option<Command> {
    if t == "list"@ {
        Some(Command::List)
    } else if t == "add-feed"@ {
        Some(Command::AddFeed)
    } else {
        None
    }
}

impl Command {
    /// The command named by a CLI word, or nothing for an unknown word,
    /// which the caller must treat as a fatal input error.
    pub fn from_token(t: &str) -> (r: Option<Command>)
        ensures
            r == spec_command_from_token(t@),
    {
        if crate::str_eq(t, "list") {
            Some(Command::List)
        } else if crate::str_eq(t, "add-feed") {
            Some(Command::AddFeed)
        } else {
            None
        }
    }
}

/// Which feed field a CLI option sets.
#[derive(Clone, Copy, PartialEq, Eq, Structural, Debug)]
pub enum ArgOption {
    Source,
    Category,
    Identifier,
}

impl View for ArgOption {
    type V = ArgOption;

    open spec fn view(&self) -> ArgOption {
        *self
    }
}

impl DeepView for ArgOption {
    type V = ArgOption;

    open spec fn deep_view(&self) -> ArgOption {
        *self
    }
}

/// The option an option word names, if any.
pub open spec fn spec_arg_option_from_token(t: Seq<char>) -> Option<ArgOption> {
    if t == "source"@ {
        Some(ArgOption::Source)
    } else if t == "category"@ {
        Some(ArgOption::Category)
    } else if t == "identifier"@ {
        Some(ArgOption::Identifier)
    } else {
        None
    }
}

impl ArgOption {
    /// The option named by an option word, or nothing for an unknown
    /// word, which the caller must treat as a fatal input error.
    pub fn from_token(t: &str) -> (r: Option<ArgOption>)
        ensures
            r == spec_arg_option_from_token(t@),
    {
        if crate::str_eq(t, "source") {
            Some(ArgOption::Source)
        } else if crate::str_eq(t, "category") {
            Some(ArgOption::Category)
        } else if crate::str_eq(t, "identifier") {
            Some(ArgOption::Identifier)
        } else {
            None
        }
    }
}

/// The error a fatal CLI input raises.
#[derive(Clone, Copy, PartialEq, Eq, Structural, Debug)]
pub enum MimError {
    InvalidOption,
}

/// Whether two dashes stand somewhere in the word.
pub open spec fn spec_contains_dashdash(s: Seq<char>) -> bool {
    exists|i: int| 0 <= i && i + 1 < s.len() && #[trigger] s[i] == '-' && s[i + 1] == '-'
}

/// The option-value pairs that an argument list denotes. A word holding
/// two dashes names an option, set from the word without its first two
/// characters, and takes the following word as its value; such a word
/// with nothing following it is dropped. Every other word is an
/// identifier value. An unknown option word is a fatal input error.
pub open spec fn spec_parse_options(args: Seq<Seq<char>>) -> Option<Seq<(ArgOption, Seq<char>)>>
    decreases args.len(),
{
    if args.len() == 0 {
        Some(Seq::<(ArgOption, Seq<char>)>::empty())
    } else if spec_contains_dashdash(args[0]) {
        if args.len() == 1 {
            Some(Seq::<(ArgOption, Seq<char>)>::empty())
        } else {
            match spec_arg_option_from_token(args[0].skip(2)) {
                None => None,
                Some(o) => match spec_parse_options(args.skip(2)) {
                    None => None,
                    Some(rest) => Some(seq![(o, args[1])] + rest),
                },
            }
        }
    } else {
        match spec_parse_options(args.skip(1)) {
            None => None,
            Some(rest) => Some(seq![(ArgOption::Identifier, args[0])] + rest),
        }
    }
}

/// Whether two dashes stand somewhere in the word.
fn contains_dashdash(s: &String) -> (r: bool)
    ensures
        r == spec_contains_dashdash(s@),
{
    let n = s.as_str().unicode_len();
    if n < 2 {
        return false;
    }
    let mut i: usize = 0;
    while i < n - 1
        invariant
            n == s@.len(),
            2 <= n,
            0 <= i,
            forall|k: int| 0 <= k < i ==> !(#[trigger] s@[k] == '-' && s@[k + 1] == '-'),
        decreases n - i,
    {
        if s.as_str().get_char(i) == '-' && s.as_str().get_char(i + 1) == '-' {
            return true;
        }
        i = i + 1;
    }
    false
}

/// The option-value pairs of an argument list, which is consumed. An
/// unknown option word is a fatal input error and yields no pairs.
pub fn parse_options(args: &mut Vec<String>) -> (r: Result<
    Vec<(ArgOption, String)>,
    MimError,
>)
    ensures
        final(args)@.len() == 0,
        r matches Ok(v) ==> spec_parse_options(old(args).deep_view()) == Some(v.deep_view()),
        r is Err ==> spec_parse_options(old(args).deep_view()) is None,
{
    let ghost av = old(args).deep_view();
    let mut values: Vec<(ArgOption, String)> = Vec::new();
    let n = args.len();
    let mut i: usize = 0;
    proof {
        assert(av.skip(0) =~= av);
        match spec_parse_options(av) {
            Some(rest) => {
                assert(values.deep_view() + rest =~= rest);
            },
            None => {},
        }
    }
    while i < n
        invariant
            av == old(args).deep_view(),
            av == args.deep_view(),
            i <= n,
            n == args@.len(),
            match spec_parse_options(av.skip(i as int)) {
                Some(rest) => spec_parse_options(av) == Some(values.deep_view() + rest),
                None => spec_parse_options(av) is None,
            },
        decreases n - i,
    {
        let ghost tail = av.skip(i as int);
        proof {
            assert(tail[0] == av[i as int]);
            assert(av[i as int] == args@[i as int]@);
        }
        if contains_dashdash(&args[i]) {
            if i + 1 == n {
                proof {
                    assert(tail.len() == 1);
                    assert(spec_parse_options(tail) == Some(
                        Seq::<(ArgOption, Seq<char>)>::empty(),
                    ));
                }
                i = n;
            } else {
                let len_i = args[i].as_str().unicode_len();
                proof {
                    assert(spec_contains_dashdash(tail[0]));
                    assert(tail[0].len() >= 2);
                }
                let tok = args[i].as_str().substring_char(2, len_i);
                proof {
                    assert(tok@ =~= tail[0].skip(2));
                }
                match ArgOption::from_token(tok) {
                    None => {
                        args.clear();
                        return Err(MimError::InvalidOption);
                    },
                    Some(o) => {
                        let ghost values_before = values.deep_view();
                        values.push((o, args[i + 1].clone()));
                        proof {
                            assert(tail[1] == av[i + 1]);
                            assert(tail.skip(2) =~= av.skip(i + 2));
                            assert(values.deep_view() =~= values_before.push(
                                (o, av[i + 1]),
                            ));
                            match spec_parse_options(av.skip(i + 2)) {
                                Some(rest) => {
                                    assert(values_before + (seq![(o, av[i + 1])] + rest)
                                        =~= values.deep_view() + rest);
                                },
                                None => {},
                            }
                        }
                        i = i + 2;
                    },
                }
            }
        } else {
            let ghost values_before = values.deep_view();
            values.push((ArgOption::Identifier, args[i].clone()));
            proof {
                assert(tail.skip(1) =~= av.skip(i + 1));
                assert(values.deep_view() =~= values_before.push(
                    (ArgOption::Identifier, av[i as int]),
                ));
                match spec_parse_options(av.skip(i + 1)) {
                    Some(rest) => {
                        assert(values_before + (seq![(ArgOption::Identifier, av[i as int])] + rest)
                            =~= values.deep_view() + rest);
                    },
                    None => {},
                }
            }
            i = i + 1;
        }
    }
    proof {
        assert(av.skip(i as int).len() == 0);
        assert(spec_parse_options(av.skip(i as int)) == Some(
            Seq::<(ArgOption, Seq<char>)>::empty(),
        ));
        match spec_parse_options(av.skip(i as int)) {
            Some(rest) => {
                assert(values.deep_view() + rest =~= values.deep_view());
            },
            None => {},
        }
    }
    args.clear();
    Ok(values)
}

} // verus!
