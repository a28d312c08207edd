//! The command line: `[--staged] [--scan <dir>]... [<path>]...`.

use vstd::prelude::*;

use crate::text::chars_of;

verus! {

/// What the command line asks for.
pub struct Options {
    /// Diff the staged changes rather than the working tree's.
    pub staged: bool,
    /// Directories whose immediate repository subdirectories are to be shown.
    pub scan_dirs: Vec<String>,
    /// Repository roots to show as given.
    pub explicit_dirs: Vec<String>,
}

/// A command line that cannot be read.
#[derive(Debug, Clone, Copy, PartialEq, Eq, Structural)]
pub enum ArgsError {
    /// `--scan` came last, without its directory.
    ScanWithoutDirectory,
}

pub struct OptionsV {
    pub staged: bool,
    pub scan_dirs: Seq<Seq<char>>,
    pub explicit_dirs: Seq<Seq<char>>,
}

pub open spec fn strings_view(v: Seq<String>) -> Seq<Seq<char>> {
    v.map_values(|s: String| s@)
}

impl View for Options {
    type V = OptionsV;

    open spec fn view(&self) -> OptionsV {
        OptionsV {
            staged: self.staged,
            scan_dirs: strings_view(self.scan_dirs@),
            explicit_dirs: strings_view(self.explicit_dirs@),
        }
    }
}

/// Reads the arguments `args` on from the options `o`: `--staged` sets `staged`,
/// `--scan` takes the next argument as a directory to scan, and any other argument is
/// a path to show. `None` where `--scan` is the last argument.
pub open spec fn read_args(args: Seq<Seq<char>>, o: OptionsV) -> Option<OptionsV>
    decreases args.len(),
{
    if args.len() == 0 {
        Some(o)
    } else if args[0] == "--staged"@ {
        read_args(args.drop_first(), OptionsV { staged: true, ..o })
    } else if args[0] == "--scan"@ {
        if args.len() < 2 {
            None
        } else {
            read_args(args.skip(2), OptionsV { scan_dirs: o.scan_dirs.push(args[1]), ..o })
        }
    } else {
        read_args(args.drop_first(), OptionsV { explicit_dirs: o.explicit_dirs.push(args[0]), ..o })
    }
}

pub open spec fn no_options() -> OptionsV {
    OptionsV { staged: false, scan_dirs: seq![], explicit_dirs: seq![] }
}

/// `a` and `b` hold the same text.
fn same_text(a: &str, b: &str) -> (r: bool)
    ensures
        r == (a@ == b@),
{
    let x = chars_of(a);
    let y = chars_of(b);
    if x.len() != y.len() {
        assert(x@.len() != y@.len());
        return false;
    }
    let mut i: usize = 0;
    while i < x.len()
        invariant
            x@ == a@,
            y@ == b@,
            x@.len() == y@.len(),
            i <= x@.len(),
            forall|j: int| 0 <= j < i ==> x@[j] == y@[j],
        decreases x@.len() - i,
    {
        if x[i] != y[i] {
            assert(x@[i as int] != y@[i as int]);
            return false;
        }
        i = i + 1;
    }
    assert(x@ == y@);
    true
}

/// The options that the arguments (the program's name left out) ask for.
pub fn parse_args(args: Vec<String>) -> (r: Result<Options, ArgsError>)
    ensures
        r matches Ok(o) ==> read_args(strings_view(args@), no_options()) == Some(o@),
        r is Err <==> read_args(strings_view(args@), no_options()) is None,
{
    let ghost all = strings_view(args@);
    let mut o = Options { staged: false, scan_dirs: Vec::new(), explicit_dirs: Vec::new() };
    assert(o@ == no_options()) by {
        assert(strings_view(o.scan_dirs@) =~= Seq::<Seq<char>>::empty());
        assert(strings_view(o.explicit_dirs@) =~= Seq::<Seq<char>>::empty());
    }
    assert(all.skip(0) == all);
    let mut i: usize = 0;
    while i < args.len()
        invariant
            all == strings_view(args@),
            i <= all.len(),
            read_args(all, no_options()) == read_args(all.skip(i as int), o@),
        decreases all.len() - i,
    {
        let ghost rest = all.skip(i as int);
        assert(rest[0] == args@[i as int]@);
        let arg = args[i].as_str();
        if same_text(arg, "--staged") {
            o.staged = true;
            assert(rest.drop_first() == all.skip(i + 1));
            i = i + 1;
        } else if same_text(arg, "--scan") {
            if i + 1 >= args.len() {
                return Err(ArgsError::ScanWithoutDirectory);
            }
            let ghost before = strings_view(o.scan_dirs@);
            o.scan_dirs.push(args[i + 1].clone());
            assert(strings_view(o.scan_dirs@) =~= before.push(args@[i + 1]@));
            assert(rest[1] == args@[i + 1]@);
            assert(rest.skip(2) == all.skip(i + 2));
            i = i + 2;
        } else {
            let ghost before = strings_view(o.explicit_dirs@);
            o.explicit_dirs.push(args[i].clone());
            assert(strings_view(o.explicit_dirs@) =~= before.push(args@[i as int]@));
            assert(rest.drop_first() == all.skip(i + 1));
            i = i + 1;
        }
    }
    assert(all.skip(i as int) == Seq::<Seq<char>>::empty());
    Ok(o)
}

} // verus!
