use vstd::prelude::*;
use vstd::string::*;

verus! {

/// `dir` joined with the relative path `name`, as a path push does it: a
/// separator goes between them unless `dir` is empty or already ends in one.
pub open spec fn join_path(dir: Seq<char>, name: Seq<char>) -> Seq<char> {
    if dir.len() > 0 && dir.last() != '/' {
        dir + seq!['/'] + name
    } else {
        dir + name
    }
}

fn join(dir: &str, name: &str) -> (r: String)
    ensures
        r@ == join_path(dir@, name@),
{
    let n = dir.unicode_len();
    let mut out = String::from_str(dir);
    if n > 0 && dir.get_char(n - 1) != '/' {
        out.append("/");
        proof {
            reveal_strlit("/");
        }
    }
    out.append(name);
    out
}

/// The unit file's path inside the systemd unit directory `dir_path`.
pub fn resolve_service_file_path(dir_path: &str) -> (r: String)
    ensures
        r@ == join_path(dir_path@, "okey.service"@),
{
    join(dir_path, "okey.service")
}

/// The configuration directory: `/etc/okey` for root, else `.config/okey`
/// under the home directory; none for a user without a home directory.
pub fn get_config_dir_path(is_root: bool, home: Option<&str>) -> (r: Option<String>)
    ensures
        is_root ==> (r matches Some(p) && p@ == "/etc/okey"@),
        !is_root && home is None ==> r is None,
        !is_root && home is Some ==> (r matches Some(p) && p@ == join_path(home->Some_0@, ".config/okey"@)),
{
    if is_root {
        Some(String::from_str("/etc/okey"))
    } else {
        match home {
            Some(h) => Some(join(h, ".config/okey")),
            None => None,
        }
    }
}

/// The default configuration file inside the configuration directory.
pub fn get_default_config_path(config_dir: &str) -> (r: String)
    ensures
        r@ == join_path(config_dir@, "config.yaml"@),
{
    join(config_dir, "config.yaml")
}

/// The arguments of a systemctl call: a user's calls go to the user manager.
pub fn systemctl_args(is_root: bool, args: &Vec<&'static str>) -> (r: Vec<&'static str>)
    ensures
        is_root ==> r@ == args@,
        !is_root ==> r@ == seq!["--user"] + args@,
{
    let mut out: Vec<&'static str> = Vec::new();
    if !is_root {
        out.push("--user");
    }
    let ghost base = out@;
    let mut i: usize = 0;
    while i < args.len()
        invariant
            i <= args@.len(),
            out@ == base + args@.subrange(0, i as int),
        decreases args.len() - i,
    {
        out.push(args[i]);
        assert(args@.subrange(0, i + 1) =~= args@.subrange(0, i as int).push(args@[i as int]));
        i = i + 1;
    }
    assert(args@.subrange(0, args@.len() as int) =~= args@);
    if !is_root {
        assert(base =~= seq!["--user"]);
    } else {
        assert(base =~= Seq::<&'static str>::empty());
    }
    out
}

fn call(a: &'static str, b: Option<&'static str>) -> (r: Vec<&'static str>)
    ensures
        b is None ==> r@ == seq![a],
        b is Some ==> r@ == seq![a, b->Some_0],
{
    let mut v: Vec<&'static str> = Vec::new();
    v.push(a);
    if let Some(x) = b {
        v.push(x);
    }
    v
}

/// The systemctl calls that reload the unit files.
pub fn reload_daemon() -> (r: Vec<Vec<&'static str>>)
    ensures
        r@.len() == 1,
        r@[0]@ == seq!["daemon-reload"],
{
    let mut v: Vec<Vec<&'static str>> = Vec::new();
    v.push(call("daemon-reload", None));
    v
}

/// The systemctl calls that enable and start the service.
pub fn start() -> (r: Vec<Vec<&'static str>>)
    ensures
        r@.len() == 2,
        r@[0]@ == seq!["enable", "okey"],
        r@[1]@ == seq!["start", "okey"],
{
    let mut v: Vec<Vec<&'static str>> = Vec::new();
    v.push(call("enable", Some("okey")));
    v.push(call("start", Some("okey")));
    v
}

/// The systemctl calls that restart the service.
pub fn restart() -> (r: Vec<Vec<&'static str>>)
    ensures
        r@.len() == 1,
        r@[0]@ == seq!["restart", "okey"],
{
    let mut v: Vec<Vec<&'static str>> = Vec::new();
    v.push(call("restart", Some("okey")));
    v
}

/// The systemctl calls that stop and disable the service.
pub fn stop() -> (r: Vec<Vec<&'static str>>)
    ensures
        r@.len() == 2,
        r@[0]@ == seq!["stop", "okey"],
        r@[1]@ == seq!["disable", "okey"],
{
    let mut v: Vec<Vec<&'static str>> = Vec::new();
    v.push(call("stop", Some("okey")));
    v.push(call("disable", Some("okey")));
    v
}

/// Why the service cannot be started.
#[derive(Debug, Clone, Copy, PartialEq, Eq, Structural)]
pub enum ServiceError {
    /// No unit file is installed.
    NotInstalled,
}

/// Starting the installed service: reload the unit files, then enable and
/// start it. Without an installed unit file nothing is run.
pub fn start_service(installed: bool) -> (r: Result<Vec<Vec<&'static str>>, ServiceError>)
    ensures
        !installed ==> r == Err::<Vec<Vec<&'static str>>, ServiceError>(ServiceError::NotInstalled),
        installed ==> (r matches Ok(v) && v@.len() == 3 && v@[0]@ == seq!["daemon-reload"]
            && v@[1]@ == seq!["enable", "okey"] && v@[2]@ == seq!["start", "okey"]),
{
    if !installed {
        return Err(ServiceError::NotInstalled);
    }
    let mut calls = reload_daemon();
    let mut more = start();
    calls.append(&mut more);
    Ok(calls)
}

/// The systemd unit directory: the system one for root, else the user one
/// under the home directory; none for a user without a home directory.
pub fn get_systemd_dir_path(is_root: bool, home: Option<&str>) -> (r: Option<String>)
    ensures
        is_root ==> (r matches Some(p) && p@ == "/etc/systemd/system/"@),
        !is_root && home is None ==> r is None,
        !is_root && home is Some ==> (r matches Some(p) && p@ == join_path(home->Some_0@, ".config/systemd/user"@)),
{
    if is_root {
        Some(String::from_str("/etc/systemd/system/"))
    } else {
        match home {
            Some(h) => Some(join(h, ".config/systemd/user")),
            None => None,
        }
    }
}

/// The systemctl calls that show the service's status.
pub fn status() -> (r: Vec<Vec<&'static str>>)
    ensures
        r@.len() == 1,
        r@[0]@ == seq!["status", "okey"],
{
    let mut v: Vec<Vec<&'static str>> = Vec::new();
    v.push(call("status", Some("okey")));
    v
}

/// The text of the systemd unit that runs `exe_path start --systemd`; root's
/// unit also asks for real-time scheduling.
pub fn service_unit(exe_path: &str, is_root: bool) -> (r: String)
    ensures
        r@ == "[Unit]\nDescription=Okey Service\n\n[Service]\nExecStart="@ + exe_path@
            + " start --systemd\nRestart=on-failure\nStandardOutput=journal\nStandardError=journal\nNice=-20"@
            + (if is_root {
                "\nCPUSchedulingPolicy=rr\nCPUSchedulingPriority=99\nIOSchedulingClass=realtime\nIOSchedulingPriority=0"@
            } else {
                Seq::<char>::empty()
            }) + "\n\n[Install]\nWantedBy=multi-user.target"@,
{
    let mut out = String::from_str("[Unit]\nDescription=Okey Service\n\n[Service]\nExecStart=");
    out.append(exe_path);
    out.append(" start --systemd\nRestart=on-failure\nStandardOutput=journal\nStandardError=journal\nNice=-20");
    let ghost mid = out@;
    if is_root {
        out.append(
            "\nCPUSchedulingPolicy=rr\nCPUSchedulingPriority=99\nIOSchedulingClass=realtime\nIOSchedulingPriority=0",
        );
    } else {
        assert(mid + Seq::<char>::empty() =~= mid);
    }
    out.append("\n\n[Install]\nWantedBy=multi-user.target");
    out
}

} // verus!
