//! Command lines for the container runtime, and the decisions of its wait
//! loops. Running the commands is left to the caller.

use vstd::prelude::*;

use crate::error::TimeoutError;
use crate::text::{concat, concat3, decimal, u64_to_decimal};

verus! {

/// How to start a container.
#[derive(Debug, Clone)]
pub struct DockerRunArgs {
    pub args: Vec<String>,
    pub container_name: Option<String>,
    pub detached: bool,
    pub entry_point: Option<String>,
    pub environment_vars: Vec<(String, String)>,
    pub expose_all_ports: bool,
    pub expose_ports: Vec<u16>,
    pub expose_port_map: Vec<(u16, u16)>,
    pub expose_port_map_range: Vec<((u16, u16), (u16, u16))>,
    pub hostname: Option<String>,
    pub image: String,
    pub interactive: bool,
    pub network: Option<String>,
    pub remove: bool,
    pub tty: bool,
    pub user: Option<String>,
    pub volume_map: Vec<(String, String)>,
    pub work_dir: Option<String>,
}

impl Default for DockerRunArgs {
    fn default() -> (r: DockerRunArgs)
        ensures
            r.args@.len() == 0,
            r.container_name is None,
            !r.detached,
            r.entry_point is None,
            r.environment_vars@.len() == 0,
            !r.expose_all_ports,
            r.expose_ports@.len() == 0,
            r.expose_port_map@.len() == 0,
            r.expose_port_map_range@.len() == 0,
            r.hostname is None,
            r.image@ == Seq::<char>::empty(),
            !r.interactive,
            r.network is None,
            r.remove,
            !r.tty,
            r.user is None,
            r.volume_map@.len() == 0,
            r.work_dir is None,
    {
        DockerRunArgs {
            args: Vec::new(),
            container_name: None,
            detached: false,
            entry_point: None,
            environment_vars: Vec::new(),
            expose_all_ports: false,
            expose_ports: Vec::new(),
            expose_port_map: Vec::new(),
            expose_port_map_range: Vec::new(),
            hostname: None,
            image: String::new(),
            interactive: false,
            network: None,
            remove: true,
            tty: false,
            user: None,
            volume_map: Vec::new(),
            work_dir: None,
        }
    }
}

/// How to run a command in a running container.
#[derive(Debug, Clone)]
pub struct ExecArgs {
    pub tty: bool,
    pub interactive: bool,
    pub work_dir: Option<String>,
}

impl Default for ExecArgs {
    fn default() -> (r: ExecArgs)
        ensures
            !r.tty,
            !r.interactive,
            r.work_dir is None,
    {
        ExecArgs { tty: false, interactive: false, work_dir: None }
    }
}

pub open spec fn strings_view(v: Seq<String>) -> Seq<Seq<char>> {
    v.map_values(|s: String| s@)
}

pub open spec fn flag(on: bool, f: Seq<char>) -> Seq<Seq<char>> {
    if on {
        seq![f]
    } else {
        Seq::empty()
    }
}

pub open spec fn opt_arg(prefix: Seq<char>, v: Option<String>) -> Seq<Seq<char>> {
    match v {
        Some(s) => seq![prefix + s@],
        None => Seq::empty(),
    }
}

pub open spec fn port_args(ps: Seq<u16>) -> Seq<Seq<char>>
    decreases ps.len(),
{
    if ps.len() == 0 {
        Seq::empty()
    } else {
        port_args(ps.drop_last()) + seq!["-p"@, decimal(ps.last() as nat)]
    }
}

pub open spec fn port_pair(a: u16, b: u16, sep: Seq<char>) -> Seq<char> {
    decimal(a as nat) + sep + decimal(b as nat)
}

pub open spec fn port_map_args(ps: Seq<(u16, u16)>) -> Seq<Seq<char>>
    decreases ps.len(),
{
    if ps.len() == 0 {
        Seq::empty()
    } else {
        port_map_args(ps.drop_last()) + seq!["-p"@, port_pair(ps.last().0, ps.last().1, ":"@)]
    }
}

pub open spec fn range_args(ps: Seq<((u16, u16), (u16, u16))>) -> Seq<Seq<char>>
    decreases ps.len(),
{
    if ps.len() == 0 {
        Seq::empty()
    } else {
        let ((hl, hr), (cl, cr)) = ps.last();
        range_args(ps.drop_last()) + seq![
            "-p"@,
            port_pair(hl, hr, "-"@) + ":"@ + port_pair(cl, cr, "-"@),
        ]
    }
}

pub open spec fn pair_args(f: Seq<char>, sep: Seq<char>, ps: Seq<(String, String)>) -> Seq<Seq<char>>
    decreases ps.len(),
{
    if ps.len() == 0 {
        Seq::empty()
    } else {
        pair_args(f, sep, ps.drop_last()) + seq![f, ps.last().0@ + sep + ps.last().1@]
    }
}

/// The first switches of `docker run`.
pub open spec fn run_flags(a: DockerRunArgs) -> Seq<Seq<char>> {
    seq!["run"@] + flag(a.remove, "--rm"@) + flag(a.tty, "-t"@) + flag(a.interactive, "-i"@) + flag(
        a.detached,
        "-d"@,
    )
}

pub open spec fn run_names(a: DockerRunArgs) -> Seq<Seq<char>> {
    opt_arg("--name="@, a.container_name) + opt_arg("--hostname="@, a.hostname) + opt_arg(
        "--network="@,
        a.network,
    ) + flag(a.expose_all_ports, "-P"@)
}

/// The switches of `docker run` before the port options.
pub open spec fn run_head(a: DockerRunArgs) -> Seq<Seq<char>> {
    run_flags(a) + run_names(a)
}

pub open spec fn run_ports(a: DockerRunArgs) -> Seq<Seq<char>> {
    port_args(a.expose_ports@) + port_map_args(a.expose_port_map@) + range_args(
        a.expose_port_map_range@,
    )
}

/// The options after the port options, with the given entry point options
/// and container arguments.
pub open spec fn tail_with(a: DockerRunArgs, entry: Seq<Seq<char>>, args: Seq<Seq<char>>) -> Seq<Seq<char>> {
    pair_args("-v"@, ":"@, a.volume_map@) + opt_arg("--user="@, a.user) + opt_arg(
        "--workdir="@,
        a.work_dir,
    ) + pair_args("-e"@, "="@, a.environment_vars@) + entry + seq![a.image@] + args
}

pub open spec fn run_tail(a: DockerRunArgs) -> Seq<Seq<char>> {
    tail_with(a, opt_arg("--entrypoint="@, a.entry_point), strings_view(a.args@))
}

/// The arguments of `docker` that start a container.
pub open spec fn run_args_spec(a: DockerRunArgs) -> Seq<Seq<char>> {
    run_head(a) + run_ports(a) + run_tail(a)
}

/// `ws` joined by single spaces.
pub open spec fn spaced(ws: Seq<Seq<char>>) -> Seq<char>
    decreases ws.len(),
{
    if ws.len() == 0 {
        Seq::empty()
    } else if ws.len() == 1 {
        ws[0]
    } else {
        spaced(ws.drop_last()) + " "@ + ws.last()
    }
}

pub open spec fn exec_args_spec(a: ExecArgs, container: Seq<char>, cmd: Seq<Seq<char>>) -> Seq<Seq<char>> {
    seq!["exec"@] + flag(a.tty, "-t"@) + flag(a.interactive, "-i"@) + opt_arg("--workdir="@, a.work_dir)
        + seq![container] + cmd
}

fn push_str(out: &mut Vec<String>, s: &str)
    ensures
        strings_view(final(out)@) == strings_view(old(out)@).push(s@),
{
    out.push(s.to_owned());
    assert(strings_view(final(out)@) =~= strings_view(old(out)@).push(s@));
}

fn push_flag(out: &mut Vec<String>, on: bool, f: &str)
    ensures
        strings_view(final(out)@) == strings_view(old(out)@) + flag(on, f@),
{
    if on {
        push_str(out, f);
    }
    assert(strings_view(final(out)@) =~= strings_view(old(out)@) + flag(on, f@));
}

fn push_opt(out: &mut Vec<String>, prefix: &str, v: &Option<String>)
    ensures
        strings_view(final(out)@) == strings_view(old(out)@) + opt_arg(prefix@, *v),
{
    match v {
        Some(s) => {
            let a = concat(prefix, s.as_str());
            push_str(out, a.as_str());
        },
        None => {},
    }
    assert(strings_view(final(out)@) =~= strings_view(old(out)@) + opt_arg(prefix@, *v));
}

fn push_ports(out: &mut Vec<String>, ps: &Vec<u16>)
    ensures
        strings_view(final(out)@) == strings_view(old(out)@) + port_args(ps@),
{
    let ghost start = strings_view(out@);
    let n = ps.len();
    let mut i: usize = 0;
    while i < n
        invariant
            n == ps@.len(),
            0 <= i <= n,
            strings_view(out@) == start + port_args(ps@.subrange(0, i as int)),
        decreases n - i,
    {
        push_str(out, "-p");
        let d = u64_to_decimal(ps[i] as u64);
        push_str(out, d.as_str());
        assert(ps@.subrange(0, i + 1).drop_last() =~= ps@.subrange(0, i as int));
        assert(strings_view(out@) =~= start + port_args(ps@.subrange(0, i + 1)));
        i += 1;
    }
    assert(ps@.subrange(0, n as int) =~= ps@);
}

fn port_pair_text(a: u16, b: u16, sep: &str) -> (r: String)
    ensures
        r@ == port_pair(a, b, sep@),
{
    let x = u64_to_decimal(a as u64);
    let y = u64_to_decimal(b as u64);
    concat3(x.as_str(), sep, y.as_str())
}

fn push_port_maps(out: &mut Vec<String>, ps: &Vec<(u16, u16)>)
    ensures
        strings_view(final(out)@) == strings_view(old(out)@) + port_map_args(ps@),
{
    let ghost start = strings_view(out@);
    let n = ps.len();
    let mut i: usize = 0;
    while i < n
        invariant
            n == ps@.len(),
            0 <= i <= n,
            strings_view(out@) == start + port_map_args(ps@.subrange(0, i as int)),
        decreases n - i,
    {
        push_str(out, "-p");
        let (h, c) = ps[i];
        let t = port_pair_text(h, c, ":");
        push_str(out, t.as_str());
        assert(ps@.subrange(0, i + 1).drop_last() =~= ps@.subrange(0, i as int));
        assert(strings_view(out@) =~= start + port_map_args(ps@.subrange(0, i + 1)));
        i += 1;
    }
    assert(ps@.subrange(0, n as int) =~= ps@);
}

fn push_ranges(out: &mut Vec<String>, ps: &Vec<((u16, u16), (u16, u16))>)
    ensures
        strings_view(final(out)@) == strings_view(old(out)@) + range_args(ps@),
{
    let ghost start = strings_view(out@);
    let n = ps.len();
    let mut i: usize = 0;
    while i < n
        invariant
            n == ps@.len(),
            0 <= i <= n,
            strings_view(out@) == start + range_args(ps@.subrange(0, i as int)),
        decreases n - i,
    {
        push_str(out, "-p");
        let ((hl, hr), (cl, cr)) = ps[i];
        let host = port_pair_text(hl, hr, "-");
        let container = port_pair_text(cl, cr, "-");
        let t = concat3(host.as_str(), ":", container.as_str());
        push_str(out, t.as_str());
        assert(ps@.subrange(0, i + 1).drop_last() =~= ps@.subrange(0, i as int));
        assert(strings_view(out@) =~= start + range_args(ps@.subrange(0, i + 1)));
        i += 1;
    }
    assert(ps@.subrange(0, n as int) =~= ps@);
}

fn push_pairs(out: &mut Vec<String>, f: &str, sep: &str, ps: &Vec<(String, String)>)
    ensures
        strings_view(final(out)@) == strings_view(old(out)@) + pair_args(f@, sep@, ps@),
{
    let ghost start = strings_view(out@);
    let n = ps.len();
    let mut i: usize = 0;
    while i < n
        invariant
            n == ps@.len(),
            0 <= i <= n,
            strings_view(out@) == start + pair_args(f@, sep@, ps@.subrange(0, i as int)),
        decreases n - i,
    {
        push_str(out, f);
        let t = concat3(ps[i].0.as_str(), sep, ps[i].1.as_str());
        push_str(out, t.as_str());
        assert(ps@.subrange(0, i + 1).drop_last() =~= ps@.subrange(0, i as int));
        assert(strings_view(out@) =~= start + pair_args(f@, sep@, ps@.subrange(0, i + 1)));
        i += 1;
    }
    assert(ps@.subrange(0, n as int) =~= ps@);
}

fn push_all(out: &mut Vec<String>, xs: &Vec<String>)
    ensures
        strings_view(final(out)@) == strings_view(old(out)@) + strings_view(xs@),
{
    let ghost start = strings_view(out@);
    let n = xs.len();
    let mut i: usize = 0;
    while i < n
        invariant
            n == xs@.len(),
            0 <= i <= n,
            strings_view(out@) == start + strings_view(xs@.subrange(0, i as int)),
        decreases n - i,
    {
        push_str(out, xs[i].as_str());
        assert(strings_view(xs@.subrange(0, i + 1)) =~= strings_view(xs@.subrange(0, i as int)).push(
            xs@[i as int]@,
        ));
        i += 1;
    }
    assert(xs@.subrange(0, n as int) =~= xs@);
}

fn push_run_flags(out: &mut Vec<String>, args: &DockerRunArgs)
    ensures
        strings_view(final(out)@) == strings_view(old(out)@) + run_flags(*args),
{
    push_str(out, "run");
    push_flag(out, args.remove, "--rm");
    push_flag(out, args.tty, "-t");
    push_flag(out, args.interactive, "-i");
    push_flag(out, args.detached, "-d");
    assert(strings_view(final(out)@) =~= strings_view(old(out)@) + run_flags(*args));
}

fn push_run_names(out: &mut Vec<String>, args: &DockerRunArgs)
    ensures
        strings_view(final(out)@) == strings_view(old(out)@) + run_names(*args),
{
    push_opt(out, "--name=", &args.container_name);
    push_opt(out, "--hostname=", &args.hostname);
    push_opt(out, "--network=", &args.network);
    push_flag(out, args.expose_all_ports, "-P");
    assert(strings_view(final(out)@) =~= strings_view(old(out)@) + run_names(*args));
}

fn push_run_head(out: &mut Vec<String>, args: &DockerRunArgs)
    ensures
        strings_view(final(out)@) == strings_view(old(out)@) + run_head(*args),
{
    push_run_flags(out, args);
    push_run_names(out, args);
    assert(strings_view(final(out)@) =~= strings_view(old(out)@) + run_head(*args));
}

fn push_run_ports(out: &mut Vec<String>, args: &DockerRunArgs)
    ensures
        strings_view(final(out)@) == strings_view(old(out)@) + run_ports(*args),
{
    push_ports(out, &args.expose_ports);
    push_port_maps(out, &args.expose_port_map);
    push_ranges(out, &args.expose_port_map_range);
    assert(strings_view(final(out)@) =~= strings_view(old(out)@) + run_ports(*args));
}

fn push_run_tail(out: &mut Vec<String>, args: &DockerRunArgs)
    ensures
        strings_view(final(out)@) == strings_view(old(out)@) + run_tail(*args),
{
    push_pairs(out, "-v", ":", &args.volume_map);
    push_opt(out, "--user=", &args.user);
    push_opt(out, "--workdir=", &args.work_dir);
    push_pairs(out, "-e", "=", &args.environment_vars);
    push_opt(out, "--entrypoint=", &args.entry_point);
    push_str(out, args.image.as_str());
    push_all(out, &args.args);
    assert(strings_view(final(out)@) =~= strings_view(old(out)@) + run_tail(*args));
}

/// Joins words with single spaces.
pub fn join_spaced(ws: &Vec<String>) -> (r: String)
    ensures
        r@ == spaced(strings_view(ws@)),
{
    let n = ws.len();
    if n == 0 {
        return String::new();
    }
    let mut s = ws[0].clone();
    let mut i: usize = 1;
    assert(strings_view(ws@).subrange(0, 1) =~= seq![ws@[0]@]);
    while i < n
        invariant
            n == ws@.len(),
            1 <= i <= n,
            s@ == spaced(strings_view(ws@).subrange(0, i as int)),
        decreases n - i,
    {
        s = concat3(s.as_str(), " ", ws[i].as_str());
        assert(strings_view(ws@).subrange(0, i + 1).drop_last() =~= strings_view(ws@).subrange(
            0,
            i as int,
        ));
        i += 1;
    }
    assert(strings_view(ws@).subrange(0, n as int) =~= strings_view(ws@));
    s
}

/// A client of the container runtime; it builds the runtime's command lines.
#[derive(Debug, Clone, Copy)]
pub struct DockerClient {}

impl DockerClient {
    pub fn new() -> (r: DockerClient) {
        DockerClient {}
    }

    /// The program that every command line runs.
    pub fn program(&self) -> (r: &'static str)
        ensures
            r@ == "docker"@,
    {
        "docker"
    }

    /// The arguments that start a container.
    pub fn run_cmd(&self, args: &DockerRunArgs) -> (r: Vec<String>)
        ensures
            strings_view(r@) == run_args_spec(*args),
    {
        let mut out: Vec<String> = Vec::new();
        push_run_head(&mut out, args);
        push_run_ports(&mut out, args);
        push_run_tail(&mut out, args);
        assert(strings_view(out@) =~= run_args_spec(*args));
        out
    }

    /// The arguments that start a container running a shell command: `bash`
    /// as the entry point and `-c` with the words of the command.
    pub fn run_shell_cmd(&self, args: DockerRunArgs, shell_cmd: &Vec<String>) -> (r: Vec<String>)
        ensures
            strings_view(r@) == run_head(args) + run_ports(args) + tail_with(
                args,
                seq!["--entrypoint="@ + "bash"@],
                seq!["-c"@, spaced(strings_view(shell_cmd@))],
            ),
    {
        let ghost orig = args;
        let mut a = args;
        let bash = "bash".to_owned();
        let ghost bash_view = bash@;
        a.entry_point = Some(bash);
        let mut cmd: Vec<String> = Vec::new();
        cmd.push("-c".to_owned());
        cmd.push(join_spaced(shell_cmd));
        assert(strings_view(cmd@) =~= seq!["-c"@, spaced(strings_view(shell_cmd@))]);
        a.args = cmd;
        let r = self.run_cmd(&a);
        assert(run_head(a) =~= run_head(orig));
        assert(run_ports(a) =~= run_ports(orig));
        assert(opt_arg("--entrypoint="@, a.entry_point) =~= seq!["--entrypoint="@ + "bash"@]);
        assert(run_tail(a) =~= tail_with(
            orig,
            seq!["--entrypoint="@ + "bash"@],
            seq!["-c"@, spaced(strings_view(shell_cmd@))],
        ));
        r
    }

    /// The arguments that run a command in a container.
    pub fn exec_cmd(&self, exec_args: &ExecArgs, container_name: &str, cmd_args: &Vec<String>) -> (r: Vec<
        String,
    >)
        ensures
            strings_view(r@) == exec_args_spec(*exec_args, container_name@, strings_view(cmd_args@)),
    {
        let mut out: Vec<String> = Vec::new();
        push_str(&mut out, "exec");
        push_flag(&mut out, exec_args.tty, "-t");
        push_flag(&mut out, exec_args.interactive, "-i");
        push_opt(&mut out, "--workdir=", &exec_args.work_dir);
        push_str(&mut out, container_name);
        push_all(&mut out, cmd_args);
        assert(strings_view(out@) =~= exec_args_spec(
            *exec_args,
            container_name@,
            strings_view(cmd_args@),
        ));
        out
    }

    /// The arguments that run a shell command in a container.
    pub fn exec_shell_cmd(&self, exec_args: &ExecArgs, container_name: &str, shell_cmd: &Vec<String>) -> (r:
        Vec<String>)
        ensures
            strings_view(r@) == exec_args_spec(
                *exec_args,
                container_name@,
                seq!["bash"@, "-c"@, spaced(strings_view(shell_cmd@))],
            ),
    {
        let mut cmd: Vec<String> = Vec::new();
        cmd.push("bash".to_owned());
        cmd.push("-c".to_owned());
        cmd.push(join_spaced(shell_cmd));
        assert(strings_view(cmd@) =~= seq!["bash"@, "-c"@, spaced(strings_view(shell_cmd@))]);
        self.exec_cmd(exec_args, container_name, &cmd)
    }

    /// The arguments that kill a container.
    pub fn kill_cmd(&self, container_name: &str) -> (r: Vec<String>)
        ensures
            strings_view(r@) == seq!["kill"@, container_name@],
    {
        let mut out: Vec<String> = Vec::new();
        push_str(&mut out, "kill");
        push_str(&mut out, container_name);
        assert(strings_view(out@) =~= seq!["kill"@, container_name@]);
        out
    }

    /// The arguments that create a network.
    pub fn create_network_cmd(&self, network_name: &str) -> (r: Vec<String>)
        ensures
            strings_view(r@) == seq!["network"@, "create"@, network_name@],
    {
        let mut out: Vec<String> = Vec::new();
        push_str(&mut out, "network");
        push_str(&mut out, "create");
        push_str(&mut out, network_name);
        assert(strings_view(out@) =~= seq!["network"@, "create"@, network_name@]);
        out
    }

    /// The arguments that remove a network.
    pub fn remove_network_cmd(&self, network_name: &str) -> (r: Vec<String>)
        ensures
            strings_view(r@) == seq!["network"@, "rm"@, network_name@],
    {
        let mut out: Vec<String> = Vec::new();
        push_str(&mut out, "network");
        push_str(&mut out, "rm");
        push_str(&mut out, network_name);
        assert(strings_view(out@) =~= seq!["network"@, "rm"@, network_name@]);
        out
    }

    /// The arguments that ask which host port a container port is published on.
    pub fn host_port_query_cmd(&self, container_name: &str, container_port: u16) -> (r: Vec<String>)
        ensures
            strings_view(r@) == seq![
                "inspect"@,
                "--format={{ (index (index .NetworkSettings.Ports \""@ + decimal(container_port as nat)
                    + "/tcp\") 0).HostPort }}"@,
                container_name@,
            ],
    {
        let port = u64_to_decimal(container_port as u64);
        let format = concat3(
            "--format={{ (index (index .NetworkSettings.Ports \"",
            port.as_str(),
            "/tcp\") 0).HostPort }}",
        );
        let mut out: Vec<String> = Vec::new();
        push_str(&mut out, "inspect");
        push_str(&mut out, format.as_str());
        push_str(&mut out, container_name);
        assert(strings_view(out@) =~= seq![
            "inspect"@,
            "--format={{ (index (index .NetworkSettings.Ports \""@ + decimal(container_port as nat)
                + "/tcp\") 0).HostPort }}"@,
            container_name@,
        ]);
        out
    }

    /// The arguments that ask whether a container exists.
    pub fn inspect_cmd(&self, container_name: &str) -> (r: Vec<String>)
        ensures
            strings_view(r@) == seq!["inspect"@, container_name@],
    {
        let mut out: Vec<String> = Vec::new();
        push_str(&mut out, "inspect");
        push_str(&mut out, container_name);
        assert(strings_view(out@) =~= seq!["inspect"@, container_name@]);
        out
    }
}

/// One turn of a bounded wait: done once the resource is ready, a timeout
/// once `elapsed_ms` reaches `timeout_ms`, and otherwise another turn
/// (`Ok(false)`) after a pause.
pub fn wait_step(ready: bool, elapsed_ms: u64, timeout_ms: u64) -> (r: Result<bool, TimeoutError>)
    ensures
        ready ==> r == Ok::<bool, TimeoutError>(true),
        !ready && elapsed_ms >= timeout_ms ==> r == Err::<bool, TimeoutError>(TimeoutError { duration_ms: timeout_ms }),
        !ready && elapsed_ms < timeout_ms ==> r == Ok::<bool, TimeoutError>(false),
{
    if ready {
        Ok(true)
    } else if elapsed_ms >= timeout_ms {
        Err(TimeoutError::new(timeout_ms))
    } else {
        Ok(false)
    }
}

pub open spec fn is_digit(c: char) -> bool {
    '0' <= c <= '9'
}

/// The value of a run of decimal digits.
pub open spec fn digits_value(s: Seq<char>) -> nat
    decreases s.len(),
{
    if s.len() == 0 {
        0
    } else {
        digits_value(s.drop_last()) * 10 + ((s.last() as nat) - ('0' as nat)) as nat
    }
}

/// Text without one leading `+`.
pub open spec fn unsigned_part(t: Seq<char>) -> Seq<char> {
    if t.len() > 0 && t[0] == '+' {
        t.drop_first()
    } else {
        t
    }
}

pub open spec fn all_digits(d: Seq<char>) -> bool {
    forall|i: int| 0 <= i < d.len() ==> is_digit(#[trigger] d[i])
}

/// One or more digits whose value fits in 16 bits.
pub open spec fn digits_port(d: Seq<char>) -> Option<u16> {
    if d.len() > 0 && all_digits(d) && digits_value(d) <= 65535 {
        Some(digits_value(d) as u16)
    } else {
        None
    }
}

/// What a port number in text reads as: an optional `+` and one or more
/// digits whose value fits in 16 bits.
pub open spec fn port_of(t: Seq<char>) -> Option<u16> {
    digits_port(unsigned_part(t))
}

pub open spec fn is_break(c: char) -> bool {
    c == '\r' || c == '\n'
}

/// `s[lo..hi]` is `s` without its leading and trailing line breaks.
pub open spec fn trimmed_at(s: Seq<char>, lo: int, hi: int) -> bool {
    &&& 0 <= lo <= hi <= s.len()
    &&& forall|i: int| 0 <= i < lo ==> is_break(#[trigger] s[i])
    &&& forall|i: int| hi <= i < s.len() ==> is_break(#[trigger] s[i])
    &&& lo == hi || (!is_break(s[lo]) && !is_break(s[hi - 1]))
}

/// Reads the host port that `docker inspect` printed: the text without its
/// leading and trailing line breaks, as a 16-bit number.
pub fn parse_host_port(output: &str) -> (r: Option<u16>)
    ensures
        exists|lo: int, hi: int| trimmed_at(output@, lo, hi) && r == port_of(output@.subrange(lo, hi)),
{
    let n = output.unicode_len();
    let mut lo: usize = 0;
    while lo < n && (output.get_char(lo) == '\r' || output.get_char(lo) == '\n')
        invariant
            n == output@.len(),
            0 <= lo <= n,
            forall|i: int| 0 <= i < lo ==> is_break(#[trigger] output@[i]),
        decreases n - lo,
    {
        lo += 1;
    }
    let mut hi: usize = n;
    while hi > lo && (output.get_char(hi - 1) == '\r' || output.get_char(hi - 1) == '\n')
        invariant
            n == output@.len(),
            0 <= lo <= hi <= n,
            forall|i: int| hi <= i < n ==> is_break(#[trigger] output@[i]),
        decreases hi - lo,
    {
        hi -= 1;
    }
    let ghost t = output@.subrange(lo as int, hi as int);
    assert(lo == hi || (!is_break(output@[lo as int]) && !is_break(output@[hi - 1])));
    let mut start: usize = lo;
    if start < hi && output.get_char(start) == '+' {
        start += 1;
    }
    let ghost d = output@.subrange(start as int, hi as int);
    assert(d =~= unsigned_part(t));
    assert(trimmed_at(output@, lo as int, hi as int));
    if start >= hi {
        assert(digits_port(d) is None);
        return None;
    }
    let mut value: u64 = 0;
    let mut i: usize = start;
    while i < hi
        invariant
            n == output@.len(),
            lo <= start <= i <= hi <= n,
            d == output@.subrange(start as int, hi as int),
            forall|j: int| start <= j < i ==> is_digit(#[trigger] output@[j]),
            value == digits_value(output@.subrange(start as int, i as int)),
            value <= 65535,
            forall|j: int| 0 <= j < lo ==> is_break(#[trigger] output@[j]),
            forall|j: int| hi <= j < n ==> is_break(#[trigger] output@[j]),
            trimmed_at(output@, lo as int, hi as int),
            t == output@.subrange(lo as int, hi as int),
            d == unsigned_part(t),
        decreases hi - i,
    {
        let c = output.get_char(i);
        if !('0' <= c && c <= '9') {
            assert(!is_digit(d[i - start]));
            assert(!all_digits(d));
            assert(digits_port(d) is None);
            return None;
        }
        assert(output@.subrange(start as int, i + 1).drop_last() =~= output@.subrange(
            start as int,
            i as int,
        ));
        value = value * 10 + (c as u64 - '0' as u64);
        assert(output@.subrange(start as int, i + 1).last() == c);
        assert(value == digits_value(output@.subrange(start as int, i + 1)));
        if value > 65535 {
            proof {
                assert(d.subrange(0, i + 1 - start) =~= output@.subrange(start as int, i + 1));
                assert forall|j: int| 0 <= j < i + 1 - start implies is_digit(#[trigger] d[j]) by {
                    assert(d[j] == output@[start + j]);
                }
                lemma_digits_grow(d, (i + 1 - start) as int);
                if exists|j: int| (i + 1 - start) <= j < d.len() && !is_digit(#[trigger] d[j]) {
                    assert(!all_digits(d));
                }
                assert(digits_port(d) is None);
            }
            return None;
        }
        i += 1;
    }
    assert(output@.subrange(start as int, hi as int) =~= d);
    assert(all_digits(d));
    assert(digits_port(d) == Some(value as u16));
    Some(value as u16)
}

proof fn lemma_digits_grow(d: Seq<char>, k: int)
    requires
        0 <= k <= d.len(),
        forall|i: int| 0 <= i < k ==> is_digit(#[trigger] d[i]),
    ensures
        digits_value(d.subrange(0, k)) <= digits_value(d) || exists|i: int|
            k <= i < d.len() && !is_digit(#[trigger] d[i]),
    decreases d.len() - k,
{
    if k < d.len() && is_digit(d[k]) {
        lemma_digits_grow(d, k + 1);
        assert(d.subrange(0, k + 1).drop_last() =~= d.subrange(0, k));
        let x = digits_value(d.subrange(0, k));
        let y = ((d[k] as nat) - ('0' as nat)) as nat;
        assert(x <= x * 10 + y) by (nonlinear_arith);
    } else if k == d.len() {
        assert(d.subrange(0, k) =~= d);
    }
}

} // verus!
