use vstd::prelude::*;
use crate::select::{select_dependencies, selection};
use crate::source::Source;

verus! {

/// Each of `xs` with `prefix` before it.
pub open spec fn prefixed(prefix: Seq<char>, xs: Seq<Seq<char>>) -> Seq<Seq<char>> {
    xs.map_values(|x: Seq<char>| prefix + x)
}

pub open spec fn opt_list(xs: Option<Vec<String>>) -> Seq<Seq<char>> {
    match xs {
        Some(v) => v.deep_view(),
        None => Seq::empty(),
    }
}

/// The flags that every run of the packaging tool gets.
pub open spec fn fixed_args(dist: Seq<char>) -> Seq<Seq<char>> {
    seq![
        "-v"@,
        "--log-external-command-output"@,
        "--log-external-command-error"@,
        "-d"@,
        dist,
    ]
}

/// The arguments of the packaging tool: the fixed flags and the distribution,
/// one flag per extra dependency in selection order, one per pre-build and per
/// starting-build command in configured order, and the workspace last.
pub open spec fn tool_args(
    dist: Seq<char>,
    extra: Seq<Seq<char>>,
    prebuild: Seq<Seq<char>>,
    starting: Seq<Seq<char>>,
    workspace: Seq<char>,
) -> Seq<Seq<char>> {
    fixed_args(dist) + prefixed("--extra-package="@, extra) + prefixed("--pre-build-commands="@, prebuild)
        + prefixed("--starting-build-commands="@, starting) + seq![workspace]
}

fn push_prefixed(out: &mut Vec<String>, prefix: &str, xs: &Vec<String>)
    ensures
        final(out).deep_view() == old(out).deep_view() + prefixed(prefix@, xs.deep_view()),
{
    let ghost start = out.deep_view();
    let ghost xv = xs.deep_view();
    let mut i: usize = 0;
    while i < xs.len()
        invariant
            xv == xs.deep_view(),
            i <= xs.len(),
            out.deep_view() == start + prefixed(prefix@, xv.take(i as int)),
        decreases xs.len() - i,
    {
        let ghost prev = out.deep_view();
        let arg = String::from_str(prefix).concat(xs[i].as_str());
        out.push(arg);
        proof {
            assert(xv[i as int] == xs[i as int]@);
            assert(out.deep_view() =~= prev.push(arg@));
            assert(prefixed(prefix@, xv.take(i + 1)) =~= prefixed(prefix@, xv.take(i as int)).push(prefix@ + xv[i as int]));
            assert(start + prefixed(prefix@, xv.take(i as int)).push(prefix@ + xv[i as int])
                =~= (start + prefixed(prefix@, xv.take(i as int))).push(prefix@ + xv[i as int]));
        }
        i = i + 1;
    }
    proof {
        assert(xv.take(xs.len() as int) =~= xv);
    }
}

/// The arguments of the packaging tool for building `item` for distribution
/// `dist` in `workspace`, with the extra dependencies chosen from `pool`.
pub fn sbuild_args(item: &Source, dist: &String, pool: &Vec<String>, workspace: &String) -> (r: Vec<String>)
    ensures
        r.deep_view() == tool_args(
            dist@,
            match item.depends {
                Some(d) => selection(pool.deep_view(), d.deep_view()),
                None => Seq::empty(),
            },
            opt_list(item.prebuild),
            opt_list(item.starting_build),
            workspace@,
        ),
{
    let mut out: Vec<String> = Vec::new();
    out.push(String::from_str("-v"));
    out.push(String::from_str("--log-external-command-output"));
    out.push(String::from_str("--log-external-command-error"));
    out.push(String::from_str("-d"));
    out.push(dist.clone());
    proof {
        assert(out.deep_view() =~= fixed_args(dist@));
    }
    let ghost a = out.deep_view();
    let extra = match &item.depends {
        Some(d) => select_dependencies(pool, d),
        None => Vec::new(),
    };
    push_prefixed(&mut out, "--extra-package=", &extra);
    let ghost b = out.deep_view();
    let none: Vec<String> = Vec::new();
    match &item.prebuild {
        Some(p) => push_prefixed(&mut out, "--pre-build-commands=", p),
        None => push_prefixed(&mut out, "--pre-build-commands=", &none),
    }
    let ghost c = out.deep_view();
    match &item.starting_build {
        Some(s) => push_prefixed(&mut out, "--starting-build-commands=", s),
        None => push_prefixed(&mut out, "--starting-build-commands=", &none),
    }
    let ghost d = out.deep_view();
    out.push(workspace.clone());
    proof {
        assert(none.deep_view() =~= Seq::<Seq<char>>::empty());
        assert(out.deep_view() =~= d.push(workspace@));
    }
    out
}

} // verus!
