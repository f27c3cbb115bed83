//! Configuration of one run: the option flags, the pattern, and the
//! target path, taken from the command line.
//!
//! A token beginning with `'-'` is an option token; every character in it
//! is read as an option letter (`i` turns case-insensitive matching on,
//! `g` turns ignore-rule filtering off, `H` turns hidden-file skipping
//! off; other letters mean nothing). The remaining tokens, in order, are
//! the pattern and the target path.

use vstd::prelude::*;

verus! {

/// Everything one run needs: the pattern, the flags, and the absolute
/// target path.
pub struct SearchConfig {
    pub pattern: String,
    pub case_insensitive: bool,
    pub skip_hidden: bool,
    pub use_ignore_rules: bool,
    pub root_path: String,
}

/// What was read off the command line, before the target path is made
/// absolute.
pub struct CliRequest {
    pub pattern: String,
    pub path_arg: String,
    pub case_insensitive: bool,
    pub skip_hidden: bool,
    pub use_ignore_rules: bool,
}

/// Whether a token is an option token: it begins with `'-'`.
pub open spec fn spec_is_option_token(t: Seq<char>) -> bool {
    t.len() > 0 && t[0] == '-'
}

/// Whether some option token among the first `upto` arguments (the
/// program name at index 0 aside) holds the letter `f`.
pub open spec fn spec_has_flag_upto(toks: Seq<Seq<char>>, upto: int, f: char) -> bool {
    exists|k: int, j: int|
        1 <= k < upto <= toks.len() && spec_is_option_token(toks[k]) && 0 <= j < toks[k].len()
            && toks[k][j] == f
}

/// Whether some option token holds the letter `f`.
pub open spec fn spec_has_flag(toks: Seq<Seq<char>>, f: char) -> bool {
    spec_has_flag_upto(toks, toks.len() as int, f)
}

/// The tokens that are not option tokens, in order.
pub open spec fn spec_positionals(toks: Seq<Seq<char>>) -> Seq<Seq<char>>
    decreases toks.len(),
{
    if toks.len() == 0 {
        Seq::empty()
    } else {
        let rest = spec_positionals(toks.drop_last());
        if spec_is_option_token(toks.last()) {
            rest
        } else {
            rest.push(toks.last())
        }
    }
}

/// The arguments after the program name.
pub open spec fn spec_cli_tail(toks: Seq<Seq<char>>) -> Seq<Seq<char>> {
    if toks.len() <= 1 {
        Seq::empty()
    } else {
        toks.subrange(1, toks.len() as int)
    }
}

/// Whether the letter `f` occurs in `t`.
fn token_has_char(t: &str, f: char) -> (r: bool)
    ensures
        r == exists|j: int| 0 <= j < t@.len() && t@[j] == f,
{
    let n = t.unicode_len();
    let mut j: usize = 0;
    while j < n
        invariant
            0 <= j <= n,
            n == t@.len(),
            forall|k: int| 0 <= k < j ==> t@[k] != f,
        decreases n - j,
    {
        if t.get_char(j) == f {
            return true;
        }
        j += 1;
    }
    false
}

/// Reads the command line: the option letters from every option token,
/// and the pattern and target path from the first two other tokens. With
/// fewer than two such tokens the usage line comes back as the error.
pub fn parse_args(args: &Vec<String>) -> (r: Result<CliRequest, &'static str>)
    ensures
        ({
            let toks = args@.map_values(|a: String| a@);
            let pos = spec_positionals(spec_cli_tail(toks));
            &&& r is Ok <==> pos.len() >= 2
            &&& r matches Ok(req) ==> {
                &&& req.pattern@ == pos[0]
                &&& req.path_arg@ == pos[1]
                &&& req.case_insensitive == spec_has_flag(toks, 'i')
                &&& req.use_ignore_rules == !spec_has_flag(toks, 'g')
                &&& req.skip_hidden == !spec_has_flag(toks, 'H')
            }
            &&& r matches Err(e) ==> e@ == "Usage: yagrep [options] <pattern> <file>"@
        }),
{
    let ghost toks = args@.map_values(|a: String| a@);
    let mut has_i = false;
    let mut has_g = false;
    let mut has_upper_h = false;
    let mut positionals: Vec<String> = Vec::new();
    let mut k: usize = 1;
    proof {
        if toks.len() >= 1 {
            assert(toks.subrange(1, 1) =~= Seq::<Seq<char>>::empty());
        }
    }
    while k < args.len()
        invariant
            1 <= k <= toks.len() || (toks.len() < 1 && k == 1),
            toks == args@.map_values(|a: String| a@),
            has_i == spec_has_flag_upto(toks, k as int, 'i'),
            has_g == spec_has_flag_upto(toks, k as int, 'g'),
            has_upper_h == spec_has_flag_upto(toks, k as int, 'H'),
            k <= toks.len() ==> positionals@.map_values(|a: String| a@) == spec_positionals(
                toks.subrange(1, k as int),
            ),
            toks.len() < 1 ==> positionals@.len() == 0,
        decreases args@.len() - k,
    {
        let t = &args[k];
        let is_option = t.as_str().unicode_len() > 0 && t.as_str().get_char(0) == '-';
        assert(spec_is_option_token(toks[k as int]) == is_option);
        if is_option {
            let ti = token_has_char(t.as_str(), 'i');
            let tg = token_has_char(t.as_str(), 'g');
            let th = token_has_char(t.as_str(), 'H');
            proof {
                lemma_flag_step(toks, k as int, 'i', ti);
                lemma_flag_step(toks, k as int, 'g', tg);
                lemma_flag_step(toks, k as int, 'H', th);
                assert(toks.subrange(1, k as int + 1).drop_last() =~= toks.subrange(1, k as int));
                assert(spec_positionals(toks.subrange(1, k as int + 1)) == spec_positionals(
                    toks.subrange(1, k as int),
                ));
            }
            has_i = has_i || ti;
            has_g = has_g || tg;
            has_upper_h = has_upper_h || th;
        } else {
            proof {
                lemma_no_flag_step(toks, k as int, 'i');
                lemma_no_flag_step(toks, k as int, 'g');
                lemma_no_flag_step(toks, k as int, 'H');
                assert(toks.subrange(1, k as int + 1).drop_last() =~= toks.subrange(1, k as int));
            }
            let ghost before = positionals@;
            positionals.push(t.clone());
            proof {
                assert(positionals@.map_values(|a: String| a@) =~= before.map_values(
                    |a: String| a@,
                ).push(toks[k as int]));
            }
        }
        k += 1;
    }
    proof {
        if toks.len() < 1 {
            assert(!spec_has_flag(toks, 'i'));
            assert(!spec_has_flag(toks, 'g'));
            assert(!spec_has_flag(toks, 'H'));
            assert(positionals@.map_values(|a: String| a@) =~= spec_positionals(
                spec_cli_tail(toks),
            ));
        } else {
            assert(spec_cli_tail(toks) =~= toks.subrange(1, toks.len() as int));
        }
    }
    if positionals.len() < 2 {
        return Err("Usage: yagrep [options] <pattern> <file>");
    }
    let pattern = positionals[0].clone();
    let path_arg = positionals[1].clone();
    assert(pattern@ == spec_positionals(spec_cli_tail(toks))[0]);
    assert(path_arg@ == spec_positionals(spec_cli_tail(toks))[1]);
    Ok(CliRequest {
        pattern,
        path_arg,
        case_insensitive: has_i,
        use_ignore_rules: !has_g,
        skip_hidden: !has_upper_h,
    })
}

/// Extending the scanned prefix by an option token adds exactly that
/// token's letters.
proof fn lemma_flag_step(toks: Seq<Seq<char>>, k: int, f: char, t_has: bool)
    requires
        1 <= k < toks.len(),
        spec_is_option_token(toks[k]),
        t_has == exists|j: int| 0 <= j < toks[k].len() && toks[k][j] == f,
    ensures
        spec_has_flag_upto(toks, k + 1, f) == (spec_has_flag_upto(toks, k, f) || t_has),
{
    if spec_has_flag_upto(toks, k, f) {
        let (k0, j0) = choose|k0: int, j0: int|
            1 <= k0 < k <= toks.len() && spec_is_option_token(toks[k0]) && 0 <= j0
                < toks[k0].len() && toks[k0][j0] == f;
        assert(1 <= k0 < k + 1 <= toks.len() && spec_is_option_token(toks[k0]) && 0 <= j0
            < toks[k0].len() && toks[k0][j0] == f);
    }
    if t_has {
        let j0 = choose|j0: int| 0 <= j0 < toks[k].len() && toks[k][j0] == f;
        assert(1 <= k < k + 1 <= toks.len() && spec_is_option_token(toks[k]) && 0 <= j0
            < toks[k].len() && toks[k][j0] == f);
    }
    if spec_has_flag_upto(toks, k + 1, f) && !spec_has_flag_upto(toks, k, f) {
        let (k0, j0) = choose|k0: int, j0: int|
            1 <= k0 < k + 1 <= toks.len() && spec_is_option_token(toks[k0]) && 0 <= j0
                < toks[k0].len() && toks[k0][j0] == f;
        if k0 < k {
            assert(1 <= k0 < k <= toks.len() && spec_is_option_token(toks[k0]) && 0 <= j0
                < toks[k0].len() && toks[k0][j0] == f);
        }
    }
}

/// Extending the scanned prefix by a token that is no option token adds
/// no letter.
proof fn lemma_no_flag_step(toks: Seq<Seq<char>>, k: int, f: char)
    requires
        1 <= k < toks.len(),
        !spec_is_option_token(toks[k]),
    ensures
        spec_has_flag_upto(toks, k + 1, f) == spec_has_flag_upto(toks, k, f),
{
    if spec_has_flag_upto(toks, k, f) {
        let (k0, j0) = choose|k0: int, j0: int|
            1 <= k0 < k <= toks.len() && spec_is_option_token(toks[k0]) && 0 <= j0
                < toks[k0].len() && toks[k0][j0] == f;
        assert(1 <= k0 < k + 1 <= toks.len() && spec_is_option_token(toks[k0]) && 0 <= j0
            < toks[k0].len() && toks[k0][j0] == f);
    }
    if spec_has_flag_upto(toks, k + 1, f) {
        let (k0, j0) = choose|k0: int, j0: int|
            1 <= k0 < k + 1 <= toks.len() && spec_is_option_token(toks[k0]) && 0 <= j0
                < toks[k0].len() && toks[k0][j0] == f;
        assert(k0 != k);
        assert(1 <= k0 < k <= toks.len() && spec_is_option_token(toks[k0]) && 0 <= j0
            < toks[k0].len() && toks[k0][j0] == f);
    }
}

/// The absolute form of the target argument: kept as it is when it
/// already begins with the separator, else joined to the working
/// directory.
pub open spec fn spec_resolved_path(arg: Seq<char>, cwd: Seq<char>) -> Seq<char> {
    if arg.len() > 0 && arg[0] == '/' {
        arg
    } else if cwd.len() > 0 && cwd.last() == '/' {
        cwd + arg
    } else {
        cwd + seq!['/'] + arg
    }
}

/// Makes the target argument absolute against the working directory.
pub fn resolve_path(arg: &str, cwd: &str) -> (r: String)
    requires
        arg@.len() > 0,
    ensures
        r@ == spec_resolved_path(arg@, cwd@),
{
    proof {
        reveal_strlit("/");
    }
    if arg.get_char(0) == '/' {
        return arg.to_owned();
    }
    let mut r = cwd.to_owned();
    let cn = cwd.unicode_len();
    if !(cn > 0 && cwd.get_char(cn - 1) == '/') {
        r.append("/");
        proof {
            assert(r@ =~= cwd@ + seq!['/']);
        }
    }
    r.append(arg);
    proof {
        assert(r@ =~= spec_resolved_path(arg@, cwd@));
    }
    r
}

} // verus!
