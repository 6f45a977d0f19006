//! Resolution of the selection surface's options from an operator-supplied
//! override token list, with defaults applied when an option is absent.

use vstd::prelude::*;

verus! {

/// The fully resolved configuration handed to the selection surface.
pub struct SurfaceConfig {
    pub margin: String,
    pub height: String,
    pub layout: String,
    pub color: String,
    pub bind: Vec<String>,
    pub reverse: bool,
    pub tac: bool,
    pub no_sort: bool,
    pub inline_info: bool,
    pub multi: bool,
}

/// `arg` joins `flag` with a value in one token, `--flag=value` style.
pub open spec fn is_joined_opt(arg: Seq<char>, flag: Seq<char>) -> bool {
    arg.len() > flag.len() && arg.take(flag.len() as int) == flag && arg[flag.len() as int] == '='
}

/// The value part of a joined `--flag=value` token.
pub open spec fn joined_val(arg: Seq<char>, flag: Seq<char>) -> Seq<char> {
    arg.skip(flag.len() as int + 1)
}

/// The value of the first `--flag=value` token, if any.
pub open spec fn find_joined(args: Seq<Seq<char>>, flag: Seq<char>) -> Option<Seq<char>>
    decreases args.len(),
{
    if args.len() == 0 {
        None
    } else if is_joined_opt(args[0], flag) {
        Some(joined_val(args[0], flag))
    } else {
        find_joined(args.drop_first(), flag)
    }
}

/// The token after the first standalone `flag`, if the first standalone
/// occurrence has one.
pub open spec fn find_standalone(args: Seq<Seq<char>>, flag: Seq<char>) -> Option<Seq<char>>
    decreases args.len(),
{
    if args.len() == 0 {
        None
    } else if args[0] == flag {
        if args.len() >= 2 {
            Some(args[1])
        } else {
            None
        }
    } else {
        find_standalone(args.drop_first(), flag)
    }
}

/// The resolved value of a string option: a joined token wins, then a
/// standalone flag's following token, then the default.
pub open spec fn resolved_opt(args: Seq<Seq<char>>, flag: Seq<char>, default: Seq<char>) -> Seq<
    char,
> {
    match find_joined(args, flag) {
        Some(v) => v,
        None => match find_standalone(args, flag) {
            Some(v) => v,
            None => default,
        },
    }
}

/// A boolean flag is set by its presence anywhere in the override list.
pub open spec fn has_flag(args: Seq<Seq<char>>, flag: Seq<char>) -> bool {
    exists|i: int| 0 <= i < args.len() && #[trigger] args[i] == flag
}

/// All key-binding values, collected from every occurrence in order.
pub open spec fn binds_of(args: Seq<Seq<char>>) -> Seq<Seq<char>>
    decreases args.len(),
{
    if args.len() == 0 {
        Seq::empty()
    } else if is_joined_opt(args[0], "--bind"@) {
        seq![joined_val(args[0], "--bind"@)] + binds_of(args.drop_first())
    } else if args[0] == "--bind"@ && args.len() >= 2 {
        seq![args[1]] + binds_of(args.skip(2))
    } else {
        binds_of(args.drop_first())
    }
}

pub open spec fn views_of(args: Seq<String>) -> Seq<Seq<char>> {
    args.map_values(|s: String| s@)
}

/// What each field of a resolved configuration must be, given the overrides.
pub open spec fn config_matches(c: SurfaceConfig, args: Seq<Seq<char>>) -> bool {
    &&& c.margin@ == resolved_opt(args, "--margin"@, "0%"@)
    &&& c.height@ == resolved_opt(args, "--height"@, "50%"@)
    &&& c.layout@ == resolved_opt(args, "--layout"@, "default"@)
    &&& c.color@ == resolved_opt(args, "--color"@, default_theme())
    &&& views_of(c.bind@) == binds_of(args)
    &&& c.reverse == true
    &&& c.tac == has_flag(args, "--tac"@)
    &&& c.no_sort == has_flag(args, "--no-sort"@)
    &&& c.inline_info == has_flag(args, "--inline-info"@)
    &&& c.multi == true
}

/// The built-in color scheme of the selection surface.
pub open spec fn default_theme() -> Seq<char> {
    "matched:108,matched_bg:0,current:254,current_bg:236,current_match:151,current_match_bg:236,spinner:148,info:144,prompt:110,cursor:161,selected:168,header:109,border:59"@
}

/// Whether two string slices hold the same characters.
fn str_eq(a: &str, b: &str) -> (r: bool)
    ensures
        r == (a@ == b@),
{
    let an: usize = a.unicode_len();
    let bn: usize = b.unicode_len();
    if an != bn {
        return false;
    }
    let mut i: usize = 0;
    while i < an
        invariant
            i <= an,
            an == a@.len(),
            an == b@.len(),
            forall|j: int| 0 <= j < i ==> a@[j] == b@[j],
        decreases an - i,
    {
        if a.get_char(i) != b.get_char(i) {
            return false;
        }
        i = i + 1;
    }
    proof {
        assert(a@ =~= b@);
    }
    true
}

/// The value of `arg` when it is a joined `--flag=value` token.
fn joined_value(arg: &String, flag: &str) -> (r: Option<String>)
    ensures
        r is Some <==> is_joined_opt(arg@, flag@),
        r is Some ==> r.unwrap()@ == joined_val(arg@, flag@),
{
    let an: usize = arg.as_str().unicode_len();
    let fn_: usize = flag.unicode_len();
    if an <= fn_ {
        return None;
    }
    let mut i: usize = 0;
    while i < fn_
        invariant
            i <= fn_,
            fn_ < an,
            an == arg@.len(),
            fn_ == flag@.len(),
            forall|j: int| 0 <= j < i ==> arg@[j] == flag@[j],
        decreases fn_ - i,
    {
        if arg.as_str().get_char(i) != flag.get_char(i) {
            proof {
                assert(arg@.take(fn_ as int)[i as int] != flag@[i as int]);
            }
            return None;
        }
        i = i + 1;
    }
    if arg.as_str().get_char(fn_) != '=' {
        return None;
    }
    proof {
        assert(arg@.take(fn_ as int) =~= flag@);
    }
    let v = arg.as_str().substring_char(fn_ + 1, an);
    Some(v.to_owned())
}

/// The resolved value of one string option over the override list.
fn resolve_opt(args: &Vec<String>, flag: &str, default: &str) -> (r: String)
    ensures
        r@ == resolved_opt(views_of(args@), flag@, default@),
{
    let ghost vs = views_of(args@);
    let mut i: usize = 0;
    proof {
        assert(vs.skip(0) =~= vs);
    }
    while i < args.len()
        invariant
            i <= args.len(),
            vs == views_of(args@),
            vs.len() == args@.len(),
            find_joined(vs, flag@) == find_joined(vs.skip(i as int), flag@),
        decreases args.len() - i,
    {
        proof {
            assert(vs.skip(i as int)[0] == vs[i as int]);
            assert(vs.skip(i as int).drop_first() =~= vs.skip(i as int + 1));
        }
        match joined_value(&args[i], flag) {
            Some(v) => {
                return v;
            },
            None => {},
        }
        i = i + 1;
    }
    proof {
        assert(vs.skip(vs.len() as int) =~= Seq::<Seq<char>>::empty());
    }
    let mut k: usize = 0;
    proof {
        assert(vs.skip(0) =~= vs);
    }
    while k < args.len()
        invariant
            k <= args.len(),
            vs == views_of(args@),
            vs.len() == args@.len(),
            find_joined(vs, flag@) is None,
            find_standalone(vs, flag@) == find_standalone(vs.skip(k as int), flag@),
        decreases args.len() - k,
    {
        proof {
            assert(vs.skip(k as int)[0] == vs[k as int]);
            assert(vs.skip(k as int).drop_first() =~= vs.skip(k as int + 1));
        }
        if str_eq(args[k].as_str(), flag) {
            if k + 1 < args.len() {
                proof {
                    assert(vs.skip(k as int)[1] == vs[k as int + 1]);
                }
                return args[k + 1].clone();
            } else {
                return default.to_owned();
            }
        }
        k = k + 1;
    }
    proof {
        assert(vs.skip(vs.len() as int) =~= Seq::<Seq<char>>::empty());
    }
    default.to_owned()
}

/// Whether `flag` appears as a token anywhere in the override list.
fn flag_present(args: &Vec<String>, flag: &str) -> (r: bool)
    ensures
        r == has_flag(views_of(args@), flag@),
{
    let ghost vs = views_of(args@);
    let mut i: usize = 0;
    while i < args.len()
        invariant
            i <= args.len(),
            vs == views_of(args@),
            vs.len() == args@.len(),
            forall|j: int| 0 <= j < i ==> #[trigger] vs[j] != flag@,
        decreases args.len() - i,
    {
        if str_eq(args[i].as_str(), flag) {
            proof {
                assert(vs[i as int] == args@[i as int]@);
            }
            return true;
        }
        i = i + 1;
    }
    false
}

/// All key-binding values from the override list, in order.
fn collect_binds(args: &Vec<String>) -> (r: Vec<String>)
    ensures
        views_of(r@) == binds_of(views_of(args@)),
{
    let ghost vs = views_of(args@);
    let mut out: Vec<String> = Vec::new();
    let mut i: usize = 0;
    proof {
        assert(vs.skip(0) =~= vs);
        assert(views_of(out@) =~= Seq::<Seq<char>>::empty());
    }
    while i < args.len()
        invariant
            i <= args.len(),
            vs == views_of(args@),
            vs.len() == args@.len(),
            binds_of(vs) == views_of(out@) + binds_of(vs.skip(i as int)),
        decreases args.len() - i,
    {
        proof {
            assert(vs.skip(i as int)[0] == vs[i as int]);
            assert(vs.skip(i as int).drop_first() =~= vs.skip(i as int + 1));
        }
        let ghost prev = out@;
        match joined_value(&args[i], "--bind") {
            Some(v) => {
                out.push(v);
                proof {
                    assert(views_of(out@) =~= views_of(prev).push(joined_val(vs[i as int], "--bind"@)));
                    assert(views_of(prev).push(joined_val(vs[i as int], "--bind"@)) + binds_of(
                        vs.skip(i as int + 1),
                    ) =~= views_of(prev) + (seq![joined_val(vs[i as int], "--bind"@)] + binds_of(
                        vs.skip(i as int + 1),
                    )));
                }
                i = i + 1;
            },
            None => {
                if str_eq(args[i].as_str(), "--bind") && i + 1 < args.len() {
                    proof {
                        assert(vs.skip(i as int)[1] == vs[i as int + 1]);
                        assert(vs.skip(i as int).skip(2) =~= vs.skip(i as int + 2));
                    }
                    out.push(args[i + 1].clone());
                    proof {
                        assert(views_of(out@) =~= views_of(prev).push(vs[i as int + 1]));
                        assert(views_of(prev).push(vs[i as int + 1]) + binds_of(
                            vs.skip(i as int + 2),
                        ) =~= views_of(prev) + (seq![vs[i as int + 1]] + binds_of(
                            vs.skip(i as int + 2),
                        )));
                    }
                    i = i + 2;
                } else {
                    i = i + 1;
                }
            },
        }
    }
    proof {
        assert(vs.skip(vs.len() as int) =~= Seq::<Seq<char>>::empty());
        assert(views_of(out@) + Seq::<Seq<char>>::empty() =~= views_of(out@));
    }
    out
}

/// Resolve every recognized option of the selection surface from the
/// override list; multi-selection and reversed rendering are fixed policy.
pub fn resolve_config(args: &Vec<String>) -> (c: SurfaceConfig)
    ensures
        config_matches(c, views_of(args@)),
{
    SurfaceConfig {
        margin: resolve_opt(args, "--margin", "0%"),
        height: resolve_opt(args, "--height", "50%"),
        layout: resolve_opt(args, "--layout", "default"),
        color: resolve_opt(
            args,
            "--color",
            "matched:108,matched_bg:0,current:254,current_bg:236,current_match:151,current_match_bg:236,spinner:148,info:144,prompt:110,cursor:161,selected:168,header:109,border:59",
        ),
        bind: collect_binds(args),
        reverse: true,
        tac: flag_present(args, "--tac"),
        no_sort: flag_present(args, "--no-sort"),
        inline_info: flag_present(args, "--inline-info"),
        multi: true,
    }
}

/// What `shlex::split` returns on `s`: `None` on erroneous input, otherwise
/// the shell-style words of `s`, a function of `s` alone.
pub uninterp spec fn shell_words(s: Seq<char>) -> Option<Seq<Seq<char>>>;

/// Relies on shlex::split: POSIX-shell word splitting of its input, `None`
/// exactly on input it rejects; the result depends on the input alone.
#[verifier::external_body]
fn shell_split(s: &str) -> (r: Option<Vec<String>>)
    ensures
        r is Some <==> shell_words(s@) is Some,
        r is Some ==> views_of(r.unwrap()@) == shell_words(s@).unwrap(),
{
    shlex::split(s)
}

pub open spec fn opt_str_view(raw: &Option<String>) -> Option<Seq<char>> {
    match raw {
        Some(s) => Some(s@),
        None => None,
    }
}

/// The override tokens an environment-supplied option string contributes:
/// none when it is absent or unparsable.
pub open spec fn override_args_spec(raw: Option<Seq<char>>) -> Seq<Seq<char>> {
    match raw {
        None => Seq::empty(),
        Some(s) => match shell_words(s) {
            Some(ws) => ws,
            None => Seq::empty(),
        },
    }
}

/// Split an environment-supplied option string into override tokens.
pub fn override_args(raw: &Option<String>) -> (r: Vec<String>)
    ensures
        views_of(r@) == override_args_spec(opt_str_view(raw)),
{
    let empty_ok = Vec::new();
    proof {
        assert(views_of(empty_ok@) =~= Seq::<Seq<char>>::empty());
    }
    match raw {
        None => empty_ok,
        Some(s) => match shell_split(s.as_str()) {
            Some(v) => v,
            None => empty_ok,
        },
    }
}

/// The surface configuration derived from an environment-supplied option
/// string, defaults applied when it is absent or unparsable.
pub fn surface_config(raw: &Option<String>) -> (c: SurfaceConfig)
    ensures
        config_matches(c, override_args_spec(opt_str_view(raw))),
{
    let args = override_args(raw);
    resolve_config(&args)
}

} // verus!
