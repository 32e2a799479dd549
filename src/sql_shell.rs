//! The SQL shell: its init script and the container it runs in.

use vstd::prelude::*;

use crate::docker_client::DockerRunArgs;
use crate::text::{concat, concat3};

verus! {

/// The statement that exposes one dataset's data as a view.
pub open spec fn init_line(name: Seq<char>) -> Seq<char> {
    "CREATE TEMP VIEW `"@ + name + "` AS (SELECT * FROM parquet.`kamu_data/"@ + name + "`);\n"@
}

pub open spec fn init_script(names: Seq<Seq<char>>) -> Seq<char>
    decreases names.len(),
{
    if names.len() == 0 {
        Seq::empty()
    } else {
        init_script(names.drop_last()) + init_line(names.last())
    }
}

/// A container that is killed when its guard goes away.
#[derive(Debug, Clone)]
pub struct DropContainer {
    pub docker: crate::docker_client::DockerClient,
    pub name: String,
}

impl DropContainer {
    pub fn new(docker: crate::docker_client::DockerClient, name: &str) -> (r: DropContainer)
        ensures
            r.name@ == name@,
    {
        DropContainer { docker, name: name.to_owned() }
    }
}

#[derive(Debug, Clone, Copy)]
pub struct SqlShellImpl {}

impl SqlShellImpl {
    pub fn container_name() -> (r: &'static str)
        ensures
            r@ == "kamu-spark"@,
    {
        "kamu-spark"
    }

    pub fn image() -> (r: &'static str)
        ensures
            r@ == "bitnami/spark:3.0.0"@,
    {
        "bitnami/spark:3.0.0"
    }

    /// The init script of the shell: one view per dataset directory name.
    pub fn prepare_shell_init(dataset_names: &Vec<String>) -> (r: String)
        ensures
            r@ == init_script(dataset_names@.map_values(|s: String| s@)),
    {
        let ghost names = dataset_names@.map_values(|s: String| s@);
        let mut script = String::new();
        let n = dataset_names.len();
        let mut i: usize = 0;
        while i < n
            invariant
                n == dataset_names@.len(),
                names == dataset_names@.map_values(|s: String| s@),
                0 <= i <= n,
                script@ == init_script(names.subrange(0, i as int)),
            decreases n - i,
        {
            let name = dataset_names[i].as_str();
            let a = concat3("CREATE TEMP VIEW `", name, "` AS (SELECT * FROM parquet.`kamu_data/");
            let b = concat3(a.as_str(), name, "`);\n");
            script = concat(script.as_str(), b.as_str());
            assert(names.subrange(0, i + 1).drop_last() =~= names.subrange(0, i as int));
            assert(names[i as int] == name@);
            assert(script@ =~= init_script(names.subrange(0, i + 1)));
            i += 1;
        }
        assert(names.subrange(0, n as int) =~= names);
        script
    }

    /// How to start the shell's container. The volumes are mounted only when
    /// the workspace has a data directory (`data_dir`).
    pub fn container_args(data_dir: Option<String>, cwd: String, init_script_path: String) -> (r: DockerRunArgs)
        ensures
            r.image@ == "bitnami/spark:3.0.0"@,
            r.container_name matches Some(c) && c@ == "kamu-spark"@,
            r.user matches Some(u) && u@ == "root"@,
            r.expose_ports@ == seq![8080u16, 10000u16],
            r.remove,
            !r.detached,
            r.args@.len() == 0,
            data_dir is None ==> r.volume_map@.len() == 0,
            data_dir matches Some(d) ==> r.volume_map@.len() == 3 && r.volume_map@[0].0@ == d@
                && r.volume_map@[0].1@ == "/opt/bitnami/spark/kamu_data"@ && r.volume_map@[1].0@
                == cwd@ && r.volume_map@[1].1@ == "/opt/bitnami/spark/kamu_shell"@
                && r.volume_map@[2].0@ == init_script_path@ && r.volume_map@[2].1@
                == "/opt/bitnami/spark/shell_init.sql"@,
    {
        let mut args = DockerRunArgs::default();
        args.image = Self::image().to_owned();
        args.container_name = Some(Self::container_name().to_owned());
        args.user = Some("root".to_owned());
        let mut ports: Vec<u16> = Vec::new();
        ports.push(8080);
        ports.push(10000);
        assert(ports@ =~= seq![8080u16, 10000u16]);
        args.expose_ports = ports;
        match data_dir {
            Some(d) => {
                let mut v: Vec<(String, String)> = Vec::new();
                v.push((d, "/opt/bitnami/spark/kamu_data".to_owned()));
                v.push((cwd, "/opt/bitnami/spark/kamu_shell".to_owned()));
                v.push((init_script_path, "/opt/bitnami/spark/shell_init.sql".to_owned()));
                args.volume_map = v;
            },
            None => {},
        }
        args
    }
}

} // verus!
