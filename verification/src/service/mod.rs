//! System service management (launchd/systemd): the service template, the
//! per-service file names and the `tail` arguments for viewing logs.
//!
//! Installing, starting and stopping a service, and running `tail`, are
//! the caller's; the template comes from the platform's service file.

use crate::text::{chars_of, push_range, string_of, views};
use vstd::prelude::*;

verus! {

/// A service action from the command line.
pub enum ServiceAction {
    /// Install and start the service.
    Start,
    /// Stop and uninstall the service.
    Stop,
    /// Run the service directly (used by launchd/systemd).
    Run,
    /// View service logs; the arguments are passed through to `tail`.
    Logs { tail_args: Vec<String> },
}

/// `s` with every occurrence of `p` replaced by `w`, left to right without
/// overlaps (`str::replace` for a non-empty pattern).
pub open spec fn replaced(s: Seq<char>, p: Seq<char>, w: Seq<char>) -> Seq<char>
    decreases s.len(),
{
    if p.len() == 0 || s.len() < p.len() {
        s
    } else if s.take(p.len() as int) == p {
        w + replaced(s.skip(p.len() as int), p, w)
    } else {
        seq![s[0]] + replaced(s.drop_first(), p, w)
    }
}

/// Replace every occurrence of the non-empty `pat` in `s` by `with`.
pub fn replace_all(s: &str, pat: &str, with: &str) -> (r: String)
    requires
        pat@.len() > 0,
    ensures
        r@ == replaced(s@, pat@, with@),
{
    let v = chars_of(s);
    let p = chars_of(pat);
    let n = v.len();
    let m = p.len();
    let mut out = String::new();
    let mut i: usize = 0;
    assert(v@.skip(0) =~= v@);
    while i < n
        invariant
            v@ == s@,
            p@ == pat@,
            n == v@.len(),
            m == p@.len(),
            m > 0,
            i <= n,
            out@ + replaced(v@.skip(i as int), p@, with@) == replaced(s@, pat@, with@),
        decreases n - i,
    {
        let ghost rest = v@.skip(i as int);
        let mut hit = m <= n - i;
        let mut j: usize = 0;
        while hit && j < m
            invariant
                v@ == s@,
                p@ == pat@,
                n == v@.len(),
                m == p@.len(),
                i <= n,
                hit ==> m <= n - i,
                j <= m,
                hit ==> forall|k: int| 0 <= k < j ==> v@[i + k] == p@[k],
                !hit ==> (m > n - i || exists|k: int| 0 <= k < m && v@[i + k] != p@[k]),
            decreases m - j + (if hit { 1int } else { 0int }),
        {
            if v[i + j] != p[j] {
                hit = false;
            } else {
                j += 1;
            }
        }
        if hit {
            assert(rest.take(m as int) =~= p@);
            assert(rest.skip(m as int) =~= v@.skip(i + m));
            out.append(with);
            i += m;
        } else {
            proof {
                if m <= n - i {
                    let k = choose|k: int| 0 <= k < m && v@[i + k] != p@[k];
                    assert(rest.take(m as int)[k] != p@[k]);
                }
                assert(rest.drop_first() =~= v@.skip(i + 1));
            }
            let ghost before = out@;
            crate::text::push_char(&mut out, v[i]);
            assert(out@ =~= before + seq![rest[0]]);
            i += 1;
        }
    }
    proof {
        assert(v@.skip(i as int).len() == 0);
        assert(out@ + replaced(v@.skip(i as int), p@, with@) =~= out@);
    }
    out
}

/// The platform service file for a service, with its placeholders filled
/// in order: label, description, subcommand, log name, binary, logs
/// directory, config directory and `PATH`.
pub fn render_service_template(
    template: &str,
    label: &str,
    description: &str,
    subcommand: &str,
    log_name: &str,
    binary: &str,
    logs_dir: &str,
    config_dir: &str,
    path_env: &str,
) -> (r: String)
    ensures
        r@ == replaced(replaced(replaced(replaced(replaced(replaced(replaced(replaced(
            template@,
            "{label}"@,
            label@,
        ), "{description}"@, description@), "{subcommand}"@, subcommand@), "{log_name}"@, log_name@), "{binary}"@,
            binary@), "{logs_dir}"@, logs_dir@), "{config_dir}"@, config_dir@), "{path}"@, path_env@),
{
    proof {
        reveal_strlit("{label}");
        reveal_strlit("{description}");
        reveal_strlit("{subcommand}");
        reveal_strlit("{log_name}");
        reveal_strlit("{binary}");
        reveal_strlit("{logs_dir}");
        reveal_strlit("{config_dir}");
        reveal_strlit("{path}");
    }
    let s = replace_all(template, "{label}", label);
    let s = replace_all(s.as_str(), "{description}", description);
    let s = replace_all(s.as_str(), "{subcommand}", subcommand);
    let s = replace_all(s.as_str(), "{log_name}", log_name);
    let s = replace_all(s.as_str(), "{binary}", binary);
    let s = replace_all(s.as_str(), "{logs_dir}", logs_dir);
    let s = replace_all(s.as_str(), "{config_dir}", config_dir);
    replace_all(s.as_str(), "{path}", path_env)
}

/// The file a service's port is recorded in (under the run directory).
pub fn port_file_name(name: &str) -> (r: String)
    ensures
        r@ == name@ + ".port"@,
{
    let mut r = string_of(name);
    r.append(".port");
    r
}

/// The file a service logs to (under the logs directory).
pub fn log_file_name(log_name: &str) -> (r: String)
    ensures
        r@ == log_name@ + ".log"@,
{
    let mut r = string_of(log_name);
    r.append(".log");
    r
}

/// The arguments given to `tail` to show a log: the caller's, or the last
/// fifty lines when there are none.
pub fn tail_arguments(tail_args: &Vec<String>) -> (r: Vec<String>)
    ensures
        views(r@) == if tail_args@.len() == 0 {
            seq!["-n"@, "50"@]
        } else {
            views(tail_args@)
        },
{
    if tail_args.len() == 0 {
        let mut r: Vec<String> = Vec::new();
        r.push(string_of("-n"));
        r.push(string_of("50"));
        assert(views(r@) =~= seq!["-n"@, "50"@]);
        return r;
    }
    let mut r: Vec<String> = Vec::new();
    let mut i: usize = 0;
    while i < tail_args.len()
        invariant
            i <= tail_args@.len(),
            views(r@) == views(tail_args@).take(i as int),
        decreases tail_args@.len() - i,
    {
        let ghost prev = r@;
        r.push(tail_args[i].clone());
        assert(views(r@) == views(prev).push(tail_args@[i as int]@));
        assert(views(tail_args@).take(i as int + 1) == views(tail_args@).take(i as int).push(tail_args@[i as int]@));
        i += 1;
    }
    assert(views(tail_args@).take(i as int) == views(tail_args@));
    r
}

} // verus!
