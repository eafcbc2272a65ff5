//! Servers as resolved from configuration: health-check method, probe
//! URLs, and the external log-command invocations.

use vstd::prelude::*;
use crate::config::ServerConfig;
use crate::health::HealthCheckMethod;
use crate::text::{tokens_of, views_of, split_whitespace};

verus! {

/// A server with its resolved health/log strategy.
pub struct Server {
    pub name: String,
    pub base_url: Option<String>,
    pub docker_container_name: Option<String>,
    pub health_check_method: HealthCheckMethod,
    pub kill_path: Option<String>,
    pub log_command: Option<Vec<String>>,
}

/// `server` is the resolution of `config`.
pub open spec fn server_matches_config(server: Server, config: ServerConfig) -> bool {
    &&& server.name@ == config.name@
    &&& match (server.base_url, config.base_url) {
        (Some(a), Some(b)) => a@ == b@,
        (None, None) => true,
        _ => false,
    }
    &&& match (server.docker_container_name, config.docker_container_name) {
        (Some(a), Some(b)) => a@ == b@,
        (None, None) => true,
        _ => false,
    }
    &&& match server.health_check_method {
        HealthCheckMethod::Http(path) => config.health_check_path matches Some(p) && path@ == p@,
        HealthCheckMethod::Docker => config.health_check_path is None
            && config.docker_container_name is Some,
        HealthCheckMethod::NoCheck => config.health_check_path is None
            && config.docker_container_name is None,
    }
    &&& match (server.kill_path, config.kill_path) {
        (Some(a), Some(b)) => a@ == b@,
        (None, None) => true,
        _ => false,
    }
    &&& match (server.log_command, config.log_command) {
        (Some(toks), Some(raw)) => views_of(toks@) == tokens_of(raw@),
        (None, None) => true,
        _ => false,
    }
}

impl Server {
    /// Resolves a configuration entry: the log command is split on
    /// whitespace, and the health-check method is the HTTP path when
    /// one is set, else the container probe, else none.
    pub fn from(config: ServerConfig) -> (server: Server)
        ensures
            server_matches_config(server, config),
    {
        let log_command = match &config.log_command {
            Some(raw) => Some(split_whitespace(raw.as_str())),
            None => None,
        };
        let health_check_method = match config.health_check_path {
            Some(path) => HealthCheckMethod::Http(path),
            None => {
                if config.docker_container_name.is_some() {
                    HealthCheckMethod::Docker
                } else {
                    HealthCheckMethod::NoCheck
                }
            },
        };
        Server {
            name: config.name,
            base_url: config.base_url,
            docker_container_name: config.docker_container_name,
            health_check_method,
            kill_path: config.kill_path,
            log_command,
        }
    }

    /// The URL probed by the HTTP health check: the base address, a
    /// slash, and the configured path; absent unless the method is the
    /// HTTP probe and a base address is configured.
    pub open spec fn spec_health_check_url(&self) -> Option<Seq<char>> {
        match self.health_check_method {
            HealthCheckMethod::Http(path) => match self.base_url {
                Some(base) => Some(base@ + "/"@ + path@),
                None => None,
            },
            _ => None,
        }
    }

    pub fn get_health_check_url(&self) -> (r: Option<String>)
        ensures
            match (r, self.spec_health_check_url()) {
                (Some(u), Some(v)) => u@ == v,
                (None, None) => true,
                _ => false,
            },
    {
        let path = match &self.health_check_method {
            HealthCheckMethod::Http(value) => value,
            _ => { return None },
        };
        let base = match &self.base_url {
            Some(value) => value,
            None => { return None },
        };
        let mut url = base.clone();
        url.append("/");
        url.append(path.as_str());
        Some(url)
    }

    /// The kill URL: the base address, a slash, and the kill path with
    /// its leading slashes removed; absent unless both are configured.
    pub open spec fn spec_kill_url(&self) -> Option<Seq<char>> {
        match (self.kill_path, self.base_url) {
            (Some(path), Some(base)) => Some(base@ + "/"@ + trim_slashes(path@)),
            _ => None,
        }
    }

    pub fn get_kill_url(&self) -> (r: Option<String>)
        ensures
            match (r, self.spec_kill_url()) {
                (Some(u), Some(v)) => u@ == v,
                (None, None) => true,
                _ => false,
            },
    {
        let path = match &self.kill_path {
            Some(value) => value,
            None => { return None },
        };
        let base = match &self.base_url {
            Some(value) => value,
            None => { return None },
        };
        let trimmed = trim_leading_slashes(path.as_str());
        let mut url = base.clone();
        url.append("/");
        url.append(trimmed);
        Some(url)
    }

    /// A configured log command is never an empty token list.
    pub open spec fn log_command_wf(&self) -> bool {
        self.log_command matches Some(toks) ==> toks@.len() > 0
    }
}

/// The argument list handed to a log command: container log tools take
/// the extra arguments after the command's own, other tools take them
/// first.
pub open spec fn spec_log_args(toks: Seq<String>, extra: Seq<Seq<char>>) -> Seq<Seq<char>> {
    if toks[0]@ == "docker"@ {
        views_of(toks.skip(1)) + extra
    } else {
        extra + views_of(toks.skip(1))
    }
}

/// Builds the external log-command invocations for a server: the program
/// name and its argument list.
pub struct StdLogReader {
}

/// Copies of the tokens after the command name.
fn clone_tail(toks: &Vec<String>) -> (r: Vec<String>)
    requires
        toks@.len() > 0,
    ensures
        views_of(r@) == views_of(toks@.skip(1)),
{
    let n = toks.len();
    let mut r: Vec<String> = Vec::new();
    let mut k: usize = 1;
    proof {
        assert(views_of(r@) =~= views_of(toks@.subrange(1, 1)));
    }
    while k < n
        invariant
            n == toks@.len(),
            1 <= k <= n,
            views_of(r@) == views_of(toks@.subrange(1, k as int)),
        decreases n - k,
    {
        let t = toks[k].clone();
        proof {
            assert(toks@.subrange(1, k + 1) =~= toks@.subrange(1, k as int).push(toks@[k as int]));
            assert(views_of(toks@.subrange(1, k as int).push(toks@[k as int])) =~= views_of(
                toks@.subrange(1, k as int),
            ).push(toks@[k as int]@));
            assert(views_of(r@.push(t)) =~= views_of(r@).push(t@));
        }
        r.push(t);
        k = k + 1;
    }
    proof {
        assert(toks@.subrange(1, n as int) =~= toks@.skip(1));
    }
    r
}

impl StdLogReader {
    pub fn new() -> StdLogReader {
        StdLogReader {  }
    }

    /// The invocation for a bounded log read of the last `n` lines, or
    /// none when the server has no log command.
    pub fn read_invocation(&self, server: &Server, n: i32) -> (r: Option<(String, Vec<String>)>)
        requires
            server.log_command_wf(),
        ensures
            match r {
                None => server.log_command is None,
                Some(inv) => server.log_command matches Some(toks) && inv.0@ == toks@[0]@
                    && views_of(inv.1@) == spec_log_args(
                    toks@,
                    seq!["-n"@, crate::text::dec_rep(n as int)],
                ),
            },
    {
        let toks = match &server.log_command {
            Some(toks) => toks,
            None => { return None },
        };
        let cmd = toks[0].clone();
        let count = crate::text::i64_to_string(n as i64);
        let ghost extra = seq!["-n"@, crate::text::dec_rep(n as int)];
        let mut args: Vec<String>;
        if crate::text::str_eq(cmd.as_str(), "docker") {
            args = clone_tail(toks);
            let flag: String = "-n".to_owned();
            proof {
                assert(views_of(args@.push(flag)) =~= views_of(args@).push(flag@));
            }
            args.push(flag);
            proof {
                assert(views_of(args@.push(count)) =~= views_of(args@).push(count@));
                assert(views_of(toks@.skip(1)).push("-n"@).push(crate::text::dec_rep(n as int))
                    =~= views_of(toks@.skip(1)) + extra);
            }
            args.push(count);
        } else {
            let tail = clone_tail(toks);
            args = Vec::new();
            let flag: String = "-n".to_owned();
            proof {
                assert(views_of(args@.push(flag)) =~= views_of(args@).push(flag@));
            }
            args.push(flag);
            proof {
                assert(views_of(args@.push(count)) =~= views_of(args@).push(count@));
            }
            args.push(count);
            let m = tail.len();
            let mut k: usize = 0;
            while k < m
                invariant
                    m == tail@.len(),
                    k <= m,
                    views_of(args@) == extra + views_of(tail@.subrange(0, k as int)),
                    extra == seq!["-n"@, crate::text::dec_rep(n as int)],
                decreases m - k,
            {
                let t = tail[k].clone();
                proof {
                    assert(tail@.subrange(0, k + 1) =~= tail@.subrange(0, k as int).push(
                        tail@[k as int],
                    ));
                    assert(views_of(tail@.subrange(0, k as int).push(tail@[k as int])) =~= views_of(
                        tail@.subrange(0, k as int),
                    ).push(tail@[k as int]@));
                    assert(views_of(args@.push(t)) =~= views_of(args@).push(t@));
                    assert((extra + views_of(tail@.subrange(0, k as int))).push(tail@[k as int]@)
                        =~= extra + views_of(tail@.subrange(0, k as int)).push(tail@[k as int]@));
                }
                args.push(t);
                k = k + 1;
            }
            proof {
                assert(tail@.subrange(0, m as int) =~= tail@);
                assert(views_of(args@) =~= extra + views_of(toks@.skip(1)));
            }
        }
        proof {
            assert(views_of(args@) =~= spec_log_args(toks@, extra));
        }
        Some((cmd, args))
    }

    /// The invocation for a live follow of the log stream, or none when
    /// the server has no log command.
    pub fn follow_invocation(&self, server: &Server) -> (r: Option<(String, Vec<String>)>)
        requires
            server.log_command_wf(),
        ensures
            match r {
                None => server.log_command is None,
                Some(inv) => server.log_command matches Some(toks) && inv.0@ == toks@[0]@
                    && views_of(inv.1@) == spec_log_args(toks@, seq!["-f"@]),
            },
    {
        let toks = match &server.log_command {
            Some(toks) => toks,
            None => { return None },
        };
        let cmd = toks[0].clone();
        let ghost extra = seq!["-f"@];
        let mut args: Vec<String>;
        if crate::text::str_eq(cmd.as_str(), "docker") {
            args = clone_tail(toks);
            let flag: String = "-f".to_owned();
            proof {
                assert(views_of(args@.push(flag)) =~= views_of(args@).push(flag@));
                assert(views_of(toks@.skip(1)).push("-f"@) =~= views_of(toks@.skip(1)) + extra);
            }
            args.push(flag);
        } else {
            let tail = clone_tail(toks);
            args = Vec::new();
            let flag: String = "-f".to_owned();
            proof {
                assert(views_of(args@.push(flag)) =~= views_of(args@).push(flag@));
            }
            args.push(flag);
            let m = tail.len();
            let mut k: usize = 0;
            while k < m
                invariant
                    m == tail@.len(),
                    k <= m,
                    views_of(args@) == extra + views_of(tail@.subrange(0, k as int)),
                    extra == seq!["-f"@],
                decreases m - k,
            {
                let t = tail[k].clone();
                proof {
                    assert(tail@.subrange(0, k + 1) =~= tail@.subrange(0, k as int).push(
                        tail@[k as int],
                    ));
                    assert(views_of(tail@.subrange(0, k as int).push(tail@[k as int])) =~= views_of(
                        tail@.subrange(0, k as int),
                    ).push(tail@[k as int]@));
                    assert(views_of(args@.push(t)) =~= views_of(args@).push(t@));
                    assert((extra + views_of(tail@.subrange(0, k as int))).push(tail@[k as int]@)
                        =~= extra + views_of(tail@.subrange(0, k as int)).push(tail@[k as int]@));
                }
                args.push(t);
                k = k + 1;
            }
            proof {
                assert(tail@.subrange(0, m as int) =~= tail@);
                assert(views_of(args@) =~= extra + views_of(toks@.skip(1)));
            }
        }
        proof {
            assert(views_of(args@) =~= spec_log_args(toks@, extra));
        }
        Some((cmd, args))
    }
}

/// Some server in `servers` carries the given name.
pub open spec fn spec_has_server(servers: Seq<Server>, name: Seq<char>) -> bool {
    exists|i: int| 0 <= i < servers.len() && servers[i].name@ == name
}

/// Some configuration entry in `configs` carries the given name.
pub open spec fn spec_has_config(configs: Seq<ServerConfig>, name: Seq<char>) -> bool {
    exists|j: int| 0 <= j < configs.len() && configs[j].name@ == name
}

/// The position of the last configuration entry with the name
/// (meaningful only when one exists).
pub open spec fn last_config_index(configs: Seq<ServerConfig>, name: Seq<char>) -> int
    decreases configs.len(),
{
    if configs.len() == 0 {
        -1
    } else if configs.last().name@ == name {
        configs.len() - 1
    } else {
        last_config_index(configs.drop_last(), name)
    }
}

/// Where the name occurs, `last_config_index` names its last occurrence.
pub proof fn lemma_last_config_index(configs: Seq<ServerConfig>, name: Seq<char>)
    requires
        spec_has_config(configs, name),
    ensures
        0 <= last_config_index(configs, name) < configs.len(),
        configs[last_config_index(configs, name)].name@ == name,
        forall|k: int|
            last_config_index(configs, name) < k < configs.len() ==> configs[k].name@ != name,
    decreases configs.len(),
{
    if configs.last().name@ != name {
        let d = configs.drop_last();
        assert(spec_has_config(d, name)) by {
            let i = choose|i: int| 0 <= i < configs.len() && configs[i].name@ == name;
            assert(d[i] == configs[i]);
        }
        lemma_last_config_index(d, name);
        assert(configs[last_config_index(configs, name)] == d[last_config_index(d, name)]);
        assert forall|k: int|
            last_config_index(configs, name) < k < configs.len() implies configs[k].name@
            != name by {
            if k < configs.len() - 1 {
                assert(d[k] == configs[k]);
            }
        }
    }
}

/// Extending the batch by one entry moves the last occurrence to it when
/// the names agree, and keeps it otherwise.
proof fn lemma_last_config_take_step(configs: Seq<ServerConfig>, k: int, name: Seq<char>)
    requires
        0 <= k < configs.len(),
    ensures
        last_config_index(configs.take(k + 1), name) == if configs[k].name@ == name {
            k
        } else {
            last_config_index(configs.take(k), name)
        },
{
    let t = configs.take(k + 1);
    assert(t.last() == configs[k]);
    assert(t.drop_last() =~= configs.take(k));
}

/// The server directory, loaded from persisted configuration and looked
/// up by name.
pub struct ConfigServerRepository {
    pub servers: Vec<Server>,
}

impl ConfigServerRepository {
    /// Server names are unique.
    pub open spec fn wf(&self) -> bool {
        forall|i: int, j: int|
            0 <= i < j < self.servers@.len() ==> self.servers@[i].name@ != self.servers@[j].name@
    }

    /// An empty directory.
    pub fn new() -> (r: ConfigServerRepository)
        ensures
            r.servers@ == Seq::<Server>::empty(),
            r.wf(),
    {
        ConfigServerRepository { servers: Vec::new() }
    }

    /// The position of the server with the given name, if present.
    fn find_index(&self, name: &str) -> (r: Option<usize>)
        ensures
            match r {
                Some(i) => i < self.servers@.len() && self.servers@[i as int].name@ == name@,
                None => !spec_has_server(self.servers@, name@),
            },
    {
        let n = self.servers.len();
        let mut i: usize = 0;
        while i < n
            invariant
                n == self.servers@.len(),
                i <= n,
                forall|m: int| 0 <= m < i ==> self.servers@[m].name@ != name@,
            decreases n - i,
        {
            if crate::text::str_eq(self.servers[i].name.as_str(), name) {
                return Some(i);
            }
            i = i + 1;
        }
        None
    }

    /// The server with the given name, if present.
    pub fn find(&self, name: &str) -> (r: Option<&Server>)
        ensures
            match r {
                Some(s) => s.name@ == name@ && exists|i: int|
                    0 <= i < self.servers@.len() && *s == self.servers@[i],
                None => !spec_has_server(self.servers@, name@),
            },
    {
        match self.find_index(name) {
            Some(i) => Some(&self.servers[i]),
            None => None,
        }
    }

    /// All known servers.
    pub fn find_all(&self) -> (r: &Vec<Server>)
        ensures
            r@ == self.servers@,
    {
        &self.servers
    }

    /// Resolves each configuration entry and stores it under its name;
    /// a later entry replaces any existing server of the same name.
    pub fn load(&mut self, configs: Vec<ServerConfig>)
        requires
            old(self).wf(),
        ensures
            final(self).wf(),
            forall|name: Seq<char>|
                spec_has_server(final(self).servers@, name) <==> (spec_has_server(
                    old(self).servers@,
                    name,
                ) || spec_has_config(configs@, name)),
            forall|i: int|
                #![trigger final(self).servers@[i]]
                0 <= i < final(self).servers@.len() ==> (if spec_has_config(
                    configs@,
                    final(self).servers@[i].name@,
                ) {
                    server_matches_config(
                        final(self).servers@[i],
                        configs@[last_config_index(configs@, final(self).servers@[i].name@)],
                    )
                } else {
                    old(self).servers@.contains(final(self).servers@[i])
                }),
    {
        let n = configs.len();
        let ghost base = self.servers@;
        let mut k: usize = 0;
        proof {
            assert(configs@.take(0) =~= Seq::<ServerConfig>::empty());
        }
        while k < n
            invariant
                n == configs@.len(),
                k <= n,
                self.wf(),
                forall|name: Seq<char>|
                    spec_has_server(self.servers@, name) <==> (spec_has_server(base, name)
                        || spec_has_config(configs@.take(k as int), name)),
                forall|i: int|
                    #![trigger self.servers@[i]]
                    0 <= i < self.servers@.len() ==> (if spec_has_config(
                        configs@.take(k as int),
                        self.servers@[i].name@,
                    ) {
                        server_matches_config(
                            self.servers@[i],
                            configs@.take(k as int)[last_config_index(
                                configs@.take(k as int),
                                self.servers@[i].name@,
                            )],
                        )
                    } else {
                        base.contains(self.servers@[i])
                    }),
            decreases n - k,
        {
            let server = Server::from(configs[k].duplicate());
            let ghost pre = self.servers@;
            let ghost cur = configs@[k as int];
            let ghost prev_taken = configs@.take(k as int);
            let ghost taken = configs@.take(k + 1);
            proof {
                assert(taken.drop_last() =~= prev_taken);
                assert(taken.last() == cur);
                assert(server.name@ == cur.name@);
                assert(forall|name: Seq<char>|
                    spec_has_server(pre, name) <==> (spec_has_server(base, name)
                        || spec_has_config(prev_taken, name)));
                assert(forall|w: int|
                    #![trigger pre[w]]
                    0 <= w < pre.len() ==> (if spec_has_config(prev_taken, pre[w].name@) {
                        server_matches_config(
                            pre[w],
                            prev_taken[last_config_index(prev_taken, pre[w].name@)],
                        )
                    } else {
                        base.contains(pre[w])
                    }));
                assert(forall|p: int, q: int|
                    0 <= p < q < pre.len() ==> pre[p].name@ != pre[q].name@);
            }
            match self.find_index(configs[k].name.as_str()) {
                Some(i) => {
                    let slot = &mut self.servers[i];
                    *slot = server;
                    proof {
                        let i = i as int;
                        assert(self.servers@ == pre.update(i, server));
                        assert forall|p: int, q: int|
                            0 <= p < q < self.servers@.len() implies self.servers@[p].name@
                            != self.servers@[q].name@ by {
                            assert(self.servers@[p] == if p == i {
                                server
                            } else {
                                pre[p]
                            });
                            assert(self.servers@[q] == if q == i {
                                server
                            } else {
                                pre[q]
                            });
                        }
                        assert forall|name: Seq<char>|
                            spec_has_server(self.servers@, name) <==> (spec_has_server(base, name)
                            || spec_has_config(taken, name)) by {
                            if spec_has_server(self.servers@, name) {
                                let w = choose|w: int|
                                    0 <= w < self.servers@.len() && self.servers@[w].name@ == name;
                                if w == i {
                                    assert(taken[taken.len() - 1].name@ == name);
                                } else {
                                    assert(pre[w].name@ == name);
                                    assert(spec_has_server(pre, name));
                                    if spec_has_config(prev_taken, name) {
                                        let m = choose|m: int|
                                            0 <= m < prev_taken.len() && prev_taken[m].name@
                                                == name;
                                        assert(taken[m].name@ == name);
                                    }
                                }
                            }
                            if spec_has_server(base, name) || spec_has_config(taken, name) {
                                if spec_has_config(taken, name) && !spec_has_config(
                                    prev_taken,
                                    name,
                                ) {
                                    let m = choose|m: int|
                                        0 <= m < taken.len() && taken[m].name@ == name;
                                    assert(m == k);
                                    assert(self.servers@[i].name@ == name);
                                } else {
                                    assert(spec_has_server(pre, name));
                                    let w = choose|w: int|
                                        0 <= w < pre.len() && pre[w].name@ == name;
                                    if w == i {
                                        assert(name == cur.name@);
                                        assert(self.servers@[i].name@ == name);
                                    } else {
                                        assert(self.servers@[w].name@ == name);
                                    }
                                }
                            }
                        }
                        assert forall|w: int|
                            #![trigger self.servers@[w]]
                            0 <= w < self.servers@.len() implies (if spec_has_config(
                            taken,
                            self.servers@[w].name@,
                        ) {
                            server_matches_config(
                                self.servers@[w],
                                taken[last_config_index(taken, self.servers@[w].name@)],
                            )
                        } else {
                            base.contains(self.servers@[w])
                        }) by {
                            let e = self.servers@[w];
                            lemma_last_config_take_step(configs@, k as int, e.name@);
                            if w == i {
                                assert(e == server);
                                assert(e.name@ == cur.name@);
                                assert(taken[k as int] == cur);
                                assert(spec_has_config(taken, e.name@));
                                assert(server_matches_config(e, configs@[k as int]));
                            } else {
                                assert(e == pre[w]);
                                assert(pre[i].name@ == cur.name@);
                                assert(e.name@ != cur.name@);
                                if spec_has_config(taken, e.name@) {
                                    let m = choose|m: int|
                                        0 <= m < taken.len() && taken[m].name@ == e.name@;
                                    assert(m < k);
                                    assert(prev_taken[m].name@ == e.name@);
                                    assert(spec_has_config(prev_taken, e.name@));
                                    lemma_last_config_index(prev_taken, e.name@);
                                    let j = last_config_index(prev_taken, e.name@);
                                    assert(taken[j] == prev_taken[j]);
                                } else {
                                    if spec_has_config(prev_taken, e.name@) {
                                        let m = choose|m: int|
                                            0 <= m < prev_taken.len() && prev_taken[m].name@
                                                == e.name@;
                                        assert(taken[m].name@ == e.name@);
                                    }
                                    assert(base.contains(e));
                                }
                            }
                        }
                    }
                },
                None => {
                    self.servers.push(server);
                    proof {
                        assert(self.servers@ == pre.push(server));
                        assert(!spec_has_server(pre, cur.name@));
                        assert forall|p: int, q: int|
                            0 <= p < q < self.servers@.len() implies self.servers@[p].name@
                            != self.servers@[q].name@ by {
                            if q == pre.len() {
                                assert(self.servers@[p] == pre[p]);
                                if pre[p].name@ == cur.name@ {
                                    assert(spec_has_server(pre, cur.name@));
                                }
                            }
                        }
                        assert forall|name: Seq<char>|
                            spec_has_server(self.servers@, name) <==> (spec_has_server(base, name)
                            || spec_has_config(taken, name)) by {
                            if spec_has_server(self.servers@, name) {
                                let w = choose|w: int|
                                    0 <= w < self.servers@.len() && self.servers@[w].name@ == name;
                                if w == pre.len() {
                                    assert(taken[taken.len() - 1].name@ == name);
                                } else {
                                    assert(pre[w].name@ == name);
                                    assert(spec_has_server(pre, name));
                                    if spec_has_config(prev_taken, name) {
                                        let m = choose|m: int|
                                            0 <= m < prev_taken.len() && prev_taken[m].name@
                                                == name;
                                        assert(taken[m].name@ == name);
                                    }
                                }
                            }
                            if spec_has_server(base, name) || spec_has_config(taken, name) {
                                if spec_has_config(taken, name) && !spec_has_config(
                                    prev_taken,
                                    name,
                                ) {
                                    let m = choose|m: int|
                                        0 <= m < taken.len() && taken[m].name@ == name;
                                    assert(m == k);
                                    assert(self.servers@[pre.len() as int].name@ == name);
                                } else {
                                    assert(spec_has_server(pre, name));
                                    let w = choose|w: int|
                                        0 <= w < pre.len() && pre[w].name@ == name;
                                    assert(self.servers@[w].name@ == name);
                                }
                            }
                        }
                        assert forall|w: int|
                            #![trigger self.servers@[w]]
                            0 <= w < self.servers@.len() implies (if spec_has_config(
                            taken,
                            self.servers@[w].name@,
                        ) {
                            server_matches_config(
                                self.servers@[w],
                                taken[last_config_index(taken, self.servers@[w].name@)],
                            )
                        } else {
                            base.contains(self.servers@[w])
                        }) by {
                            let e = self.servers@[w];
                            lemma_last_config_take_step(configs@, k as int, e.name@);
                            if w == pre.len() {
                                assert(e == server);
                                assert(e.name@ == cur.name@);
                                assert(taken[k as int] == cur);
                                assert(spec_has_config(taken, e.name@));
                                assert(server_matches_config(e, configs@[k as int]));
                            } else {
                                assert(e == pre[w]);
                                assert(e.name@ != cur.name@) by {
                                    if e.name@ == cur.name@ {
                                        assert(spec_has_server(pre, cur.name@));
                                    }
                                }
                                if spec_has_config(taken, e.name@) {
                                    let m = choose|m: int|
                                        0 <= m < taken.len() && taken[m].name@ == e.name@;
                                    assert(m < k);
                                    assert(prev_taken[m].name@ == e.name@);
                                    assert(spec_has_config(prev_taken, e.name@));
                                    lemma_last_config_index(prev_taken, e.name@);
                                    let j = last_config_index(prev_taken, e.name@);
                                    assert(taken[j] == prev_taken[j]);
                                } else {
                                    if spec_has_config(prev_taken, e.name@) {
                                        let m = choose|m: int|
                                            0 <= m < prev_taken.len() && prev_taken[m].name@
                                                == e.name@;
                                        assert(taken[m].name@ == e.name@);
                                    }
                                    assert(base.contains(e));
                                }
                            }
                        }
                    }
                },
            }
            k = k + 1;
        }
        proof {
            assert(configs@.take(n as int) =~= configs@);
        }
    }
}

/// What one health check must do for a server: probe an HTTP URL, ask
/// the container runtime about a named container, or nothing.
pub enum ProbePlan {
    Http(String),
    Docker(String),
    PathUndefined,
    Unavailable,
}

/// Chooses the probe for a server's health-check method: the HTTP URL
/// when the method is the HTTP probe and one can be formed, the
/// container name for the container probe, and nothing otherwise.
pub fn probe_plan(server: &Server) -> (r: ProbePlan)
    ensures
        match server.health_check_method {
            HealthCheckMethod::Http(_) => match server.spec_health_check_url() {
                Some(u) => r matches ProbePlan::Http(url) && url@ == u,
                None => r is PathUndefined,
            },
            HealthCheckMethod::Docker => match server.docker_container_name {
                Some(c) => r matches ProbePlan::Docker(name) && name@ == c@,
                None => r is Unavailable,
            },
            HealthCheckMethod::NoCheck => r is Unavailable,
        },
{
    match &server.health_check_method {
        HealthCheckMethod::Http(_) => match server.get_health_check_url() {
            Some(url) => ProbePlan::Http(url),
            None => ProbePlan::PathUndefined,
        },
        HealthCheckMethod::Docker => match &server.docker_container_name {
            Some(c) => ProbePlan::Docker(c.clone()),
            None => ProbePlan::Unavailable,
        },
        HealthCheckMethod::NoCheck => ProbePlan::Unavailable,
    }
}

/// The text a bounded log read reports: the captured standard output,
/// and, when anything arrived on standard error, an error section after
/// it.
pub fn combine_output(stdout: &str, stderr: &str) -> (r: String)
    ensures
        stderr@.len() == 0 ==> r@ == stdout@,
        stderr@.len() > 0 ==> r@ == stdout@ + "\n--- Error ---\n"@ + stderr@,
{
    let mut out = stdout.to_owned();
    if stderr.unicode_len() > 0 {
        out.append("\n--- Error ---\n");
        out.append(stderr);
    }
    out
}

/// `s` without its leading slashes.
pub open spec fn trim_slashes(s: Seq<char>) -> Seq<char>
    decreases s.len(),
{
    if s.len() > 0 && s[0] == '/' {
        trim_slashes(s.skip(1))
    } else {
        s
    }
}

/// Removes every leading slash, as `str::trim_start_matches('/')` does.
fn trim_leading_slashes(s: &str) -> (r: &str)
    ensures
        r@ == trim_slashes(s@),
{
    let n = s.unicode_len();
    let mut i: usize = 0;
    proof {
        assert(s@.skip(0) =~= s@);
    }
    while i < n && s.get_char(i) == '/'
        invariant
            n == s@.len(),
            i <= n,
            trim_slashes(s@) == trim_slashes(s@.skip(i as int)),
            forall|m: int| 0 <= m < i ==> s@[m] == '/',
        decreases n - i,
    {
        proof {
            let u = s@.skip(i as int);
            assert(u[0] == s@[i as int]);
            assert(u.skip(1) =~= s@.skip(i + 1));
        }
        i = i + 1;
    }
    let r = s.substring_char(i, n);
    proof {
        let u = s@.skip(i as int);
        if i < n {
            assert(u[0] == s@[i as int]);
            assert(trim_slashes(u) == u);
        } else {
            assert(u =~= Seq::<char>::empty());
            assert(trim_slashes(u) == u);
        }
        assert(r@ =~= u);
    }
    r
}

} // verus!
