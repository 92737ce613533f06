//! The command line.
use crate::text::{chars_of, concat, is_text, owned, string_texts};
use vstd::prelude::*;

verus! {

/// What the program is to do.
#[derive(Debug, PartialEq, Eq)]
pub enum CliMode {
    /// To wait for the hotkey.
    Daemon,
    /// To transcribe this file.
    Batch(String),
    /// To serve requests, without a hotkey.
    Serve,
    Help,
    /// The command line is wrong.
    Error(String),
}

/// A [`CliMode`] with its text.
pub enum CliView {
    Daemon,
    Batch(Seq<char>),
    Serve,
    Help,
    Error(Seq<char>),
}

impl View for CliMode {
    type V = CliView;

    open spec fn view(&self) -> CliView {
        match self {
            CliMode::Daemon => CliView::Daemon,
            CliMode::Batch(p) => CliView::Batch(p@),
            CliMode::Serve => CliView::Serve,
            CliMode::Help => CliView::Help,
            CliMode::Error(m) => CliView::Error(m@),
        }
    }
}

/// What arguments ask for, where `input` is the file named before them.
pub open spec fn mode_of(args: Seq<Seq<char>>, input: Option<Seq<char>>) -> CliView
    decreases args.len(),
{
    if args.len() == 0 {
        match input {
            Some(p) => CliView::Batch(p),
            None => CliView::Daemon,
        }
    } else if args[0] == "-h"@ || args[0] == "--help"@ {
        CliView::Help
    } else if args[0] == "--serve"@ {
        CliView::Serve
    } else if args[0] == "--input"@ {
        if args.len() < 2 {
            CliView::Error("--input 需要 file path"@)
        } else {
            mode_of(args.skip(2), Some(args[1]))
        }
    } else {
        CliView::Error("未知參數:"@ + args[0])
    }
}

/// What the command line asks for. Its first argument is the program's name.
pub fn parse_cli(args: &[String]) -> (r: CliMode)
    ensures
        r@ == mode_of(
            if args@.len() == 0 {
                seq![]
            } else {
                string_texts(args@).skip(1)
            },
            None,
        ),
{
    let n: usize = args.len();
    let mut i: usize = 1;
    let mut input: Option<String> = None;
    let ghost all = string_texts(args@);
    if n == 0 {
        return CliMode::Daemon;
    }
    while i < n
        invariant
            n == args@.len(),
            1 <= i <= n,
            all == string_texts(args@),
            mode_of(all.skip(i as int), crate::multipart::opt_text(input)) == mode_of(
                all.skip(1),
                None,
            ),
        decreases n - i,
    {
        let arg = chars_of(args[i].as_str());
        let arg = arg.as_slice();
        let ghost rest = all.skip(i as int);
        assert(rest[0] == arg@);
        if is_text(arg, "-h") || is_text(arg, "--help") {
            return CliMode::Help;
        }
        if is_text(arg, "--serve") {
            return CliMode::Serve;
        }
        if is_text(arg, "--input") {
            if n - i < 2 {
                return CliMode::Error(owned("--input 需要 file path"));
            }
            assert(rest[1] == all[i + 1]);
            assert(rest.skip(2) =~= all.skip(i + 2));
            input = Some(owned(args[i + 1].as_str()));
            i = i + 2;
        } else {
            return CliMode::Error(concat("未知參數:", args[i].as_str()));
        }
    }
    assert(all.skip(i as int) =~= seq![]);
    match input {
        Some(p) => CliMode::Batch(p),
        None => CliMode::Daemon,
    }
}

/// The file that is named last is transcribed; without one the program waits for the hotkey. Files
/// named before a flag make no difference to it, and nothing after it does: help is shown, requests
/// are served, and what is not known is an error.
pub proof fn law_flags_decide(files: Seq<Seq<char>>, flag: Seq<char>, rest: Seq<Seq<char>>, input: Option<Seq<char>>)
    ensures
        mode_of(naming(files), input) == if files.len() > 0 {
            CliView::Batch(files.last())
        } else {
            match input {
                Some(p) => CliView::Batch(p),
                None => CliView::Daemon,
            }
        },
        flag == "-h"@ || flag == "--help"@ ==> mode_of(naming(files) + seq![flag] + rest, input)
            == CliView::Help,
        flag == "--serve"@ ==> mode_of(naming(files) + seq![flag] + rest, input) == CliView::Serve,
        flag == "--input"@ ==> mode_of(naming(files) + seq![flag], input) is Error,
        flag != "-h"@ && flag != "--help"@ && flag != "--serve"@ && flag != "--input"@ ==> (mode_of(
            naming(files) + seq![flag] + rest,
            input,
        ) matches CliView::Error(m) && m == "未知參數:"@ + flag),
    decreases files.len(),
{
    reveal_strlit("-h");
    reveal_strlit("--help");
    reveal_strlit("--serve");
    reveal_strlit("--input");
    assert("--help"@[2] == 'h' && "--serve"@[2] == 's' && "--input"@[2] == 'i');
    assert("-h"@.len() == 2 && "--help"@.len() == 6 && "--serve"@.len() == 7 && "--input"@.len()
        == 7);
    if files.len() > 0 {
        let others = files.drop_first();
        let all = naming(files);
        law_flags_decide(others, flag, rest, Some(files[0]));
        assert(all =~= seq!["--input"@, files[0]] + naming(others));
        assert(all.skip(2) =~= naming(others));
        assert((all + seq![flag] + rest).skip(2) =~= naming(others) + seq![flag] + rest);
        assert((all + seq![flag]).skip(2) =~= naming(others) + seq![flag]);
        assert((all + seq![flag] + rest)[0] == "--input"@ && (all + seq![flag] + rest)[1]
            == files[0]);
        assert((all + seq![flag])[0] == "--input"@ && (all + seq![flag])[1] == files[0]);
        assert(others.len() > 0 ==> others.last() == files.last());
    } else {
        let all = naming(files);
        assert(all =~= seq![]);
        assert((all + seq![flag] + rest)[0] == flag);
        assert((all + seq![flag])[0] == flag);
    }
}

/// The arguments that name files, one after the other.
pub open spec fn naming(files: Seq<Seq<char>>) -> Seq<Seq<char>>
    decreases files.len(),
{
    if files.len() == 0 {
        seq![]
    } else {
        seq!["--input"@, files[0]] + naming(files.drop_first())
    }
}

/// The command line is what follows the program's name.
pub proof fn law_first_argument_is_the_program(args: &[String], r: CliMode)
    requires
        call_ensures(parse_cli, (args,), r),
    ensures
        args@.len() <= 1 ==> r == CliMode::Daemon,
        args@.len() == 2 && args@[1]@ == "--serve"@ ==> r == CliMode::Serve,
        args@.len() == 3 && args@[1]@ == "--input"@ ==> (r matches CliMode::Batch(p) && p@
            == args@[2]@),
{
    let all = string_texts(args@);
    if args@.len() > 0 {
        let given = all.skip(1);
        assert(args@.len() == 1 ==> given =~= naming(seq![]));
        law_flags_decide(seq![], "--serve"@, seq![], None);
        assert(args@.len() == 2 && args@[1]@ == "--serve"@ ==> given =~= naming(seq![])
            + seq!["--serve"@] + Seq::<Seq<char>>::empty());
        if args@.len() == 3 && args@[1]@ == "--input"@ {
            law_flags_decide(seq![args@[2]@], "--serve"@, seq![], None);
            assert(seq![args@[2]@].drop_first() =~= seq![]);
            assert(naming(Seq::<Seq<char>>::empty()) =~= seq![]);
            assert(given =~= naming(seq![args@[2]@]));
        }
    }
}

} // verus!
