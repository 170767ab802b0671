//! The player's settings and the command line that starts it on a movie.
use vstd::prelude::*;

use crate::swf::SwfInfo;

verus! {

/// How the Ruffle player is started.
#[derive(Clone)]
pub struct RuffleConfig {
    /// The player's executable, by name or by path.
    pub binary: String,
    pub scale: String,
    pub force_scale: bool,
    /// Stage alignment: "" = centered, "L" = left, "TL" = top-left, etc.
    pub align: String,
    /// Lock the alignment so the movie cannot override it.
    pub force_align: bool,
    /// How to handle TCP socket connections: "allow", "deny", or "ask".
    pub tcp_connections: String,
    /// Extra endpoints to whitelist (e.g. ["127.0.0.1:5840"]).
    pub socket_allow: Vec<String>,
    /// Flash rendering quality: "low", "medium", "high", or "best".
    pub quality: String,
}

impl Default for RuffleConfig {
    fn default() -> (r: Self)
        ensures
            r.binary@ == "ruffle"@,
            r.scale@ == "show-all"@,
            r.force_scale,
            r.align@ == Seq::<char>::empty(),
            r.force_align,
            r.tcp_connections@ == "allow"@,
            r.socket_allow@.len() == 0,
            r.quality@ == "best"@,
    {
        RuffleConfig {
            binary: "ruffle".to_string(),
            scale: "show-all".to_string(),
            force_scale: true,
            align: String::new(),
            force_align: true,
            tcp_connections: "allow".to_string(),
            socket_allow: Vec::new(),
            quality: "best".to_string(),
        }
    }
}


/// What starting the player on a movie takes: the environment variables to
/// unset, those to set, and the arguments.
pub struct LaunchCommand {
    pub env_remove: Vec<String>,
    pub env_set: Vec<(String, String)>,
    pub args: Vec<String>,
}

/// `flag` alone, when `on`.
pub open spec fn flag_if(on: bool, flag: Seq<char>) -> Seq<Seq<char>> {
    if on {
        seq![flag]
    } else {
        Seq::empty()
    }
}

/// `flag value`, when the value is not empty.
pub open spec fn option_if_set(flag: Seq<char>, value: Seq<char>) -> Seq<Seq<char>> {
    if value.len() > 0 {
        seq![flag, value]
    } else {
        Seq::empty()
    }
}

/// The flag that comes before each allowed host.
pub open spec fn socket_allow_flag() -> Seq<char> {
    "--socket-allow"@
}

/// `--socket-allow host` for each host, in order.
pub open spec fn socket_allow_args(hosts: Seq<Seq<char>>) -> Seq<Seq<char>>
    decreases hosts.len(),
{
    if hosts.len() == 0 {
        Seq::empty()
    } else {
        socket_allow_args(hosts.drop_last()) + seq![socket_allow_flag(), hosts.last()]
    }
}

/// The player's arguments: the scale, the optional flags and values the
/// settings ask for, `--no-gui` unless in debug mode, and the movie last.
pub open spec fn launch_args_spec(cfg: RuffleConfig, swf_url: Seq<char>, debug_mode: bool) -> Seq<
    Seq<char>,
> {
    seq!["--scale"@, cfg.scale@] + flag_if(cfg.force_scale, "--force-scale"@) + option_if_set(
        "--align"@,
        cfg.align@,
    ) + flag_if(cfg.force_align, "--force-align"@) + option_if_set(
        "--tcp-connections"@,
        cfg.tcp_connections@,
    ) + socket_allow_args(cfg.socket_allow.deep_view()) + option_if_set(
        "--quality"@,
        cfg.quality@,
    ) + flag_if(!debug_mode, "--no-gui"@) + seq![swf_url]
}

/// The variables set so that the player runs under X11 and window sizes are
/// honoured exactly.
pub open spec fn launch_env_set_spec() -> Seq<(Seq<char>, Seq<char>)> {
    seq![
        ("GDK_BACKEND"@, "x11"@),
        ("WINIT_UNIX_BACKEND"@, "x11"@),
        ("WINIT_X11_SCALE_FACTOR"@, "1"@),
    ]
}

pub open spec fn pairs_view(v: Seq<(String, String)>) -> Seq<(Seq<char>, Seq<char>)> {
    v.map_values(|p: (String, String)| (p.0@, p.1@))
}

fn push_flag_if(args: &mut Vec<String>, on: bool, flag: &str)
    ensures
        final(args).deep_view() == old(args).deep_view() + flag_if(on, flag@),
{
    let ghost before = args.deep_view();
    if on {
        args.push(flag.to_string());
        assert(args.deep_view() =~= before + seq![flag@]);
    } else {
        assert(args.deep_view() =~= before + Seq::<Seq<char>>::empty());
    }
}

fn push_option_if_set(args: &mut Vec<String>, flag: &str, value: &String)
    ensures
        final(args).deep_view() == old(args).deep_view() + option_if_set(flag@, value@),
{
    let ghost before = args.deep_view();
    if !value.as_str().is_empty() {
        args.push(flag.to_string());
        args.push(value.clone());
        assert(args.deep_view() =~= before + seq![flag@, value@]);
    } else {
        assert(args.deep_view() =~= before + Seq::<Seq<char>>::empty());
    }
}

/// The command that starts the player on `swf_url` with the given settings.
pub fn build_launch_command(cfg: &RuffleConfig, swf_url: &str, debug_mode: bool) -> (r:
    LaunchCommand)
    ensures
        r.env_remove.deep_view() == seq!["WAYLAND_DISPLAY"@],
        pairs_view(r.env_set@) == launch_env_set_spec(),
        r.args.deep_view() == launch_args_spec(*cfg, swf_url@, debug_mode),
{
    let mut env_remove: Vec<String> = Vec::new();
    env_remove.push("WAYLAND_DISPLAY".to_string());
    assert(env_remove.deep_view() =~= seq!["WAYLAND_DISPLAY"@]);
    let mut env_set: Vec<(String, String)> = Vec::new();
    env_set.push(("GDK_BACKEND".to_string(), "x11".to_string()));
    env_set.push(("WINIT_UNIX_BACKEND".to_string(), "x11".to_string()));
    env_set.push(("WINIT_X11_SCALE_FACTOR".to_string(), "1".to_string()));
    assert(pairs_view(env_set@) =~= launch_env_set_spec());

    let mut args: Vec<String> = Vec::new();
    args.push("--scale".to_string());
    args.push(cfg.scale.clone());
    assert(args.deep_view() =~= seq!["--scale"@, cfg.scale@]);
    push_flag_if(&mut args, cfg.force_scale, "--force-scale");
    push_option_if_set(&mut args, "--align", &cfg.align);
    push_flag_if(&mut args, cfg.force_align, "--force-align");
    push_option_if_set(&mut args, "--tcp-connections", &cfg.tcp_connections);
    let ghost before_hosts = args.deep_view();
    let mut k: usize = 0;
    while k < cfg.socket_allow.len()
        invariant
            k <= cfg.socket_allow.len(),
            args.deep_view() == before_hosts + socket_allow_args(
                cfg.socket_allow.deep_view().take(k as int),
            ),
        decreases cfg.socket_allow.len() - k,
    {
        let ghost prev = args.deep_view();
        args.push("--socket-allow".to_string());
        args.push(cfg.socket_allow[k].clone());
        let ghost hosts = cfg.socket_allow.deep_view();
        assert(hosts.take(k + 1).drop_last() =~= hosts.take(k as int));
        assert(hosts.take(k + 1).last() == cfg.socket_allow@[k as int]@);
        assert(args.deep_view() =~= prev + seq!["--socket-allow"@, cfg.socket_allow@[k as int]@]);
        k = k + 1;
    }
    assert(cfg.socket_allow.deep_view().take(cfg.socket_allow.len() as int) =~= cfg.socket_allow.deep_view());
    push_option_if_set(&mut args, "--quality", &cfg.quality);
    push_flag_if(&mut args, !debug_mode, "--no-gui");
    let ghost before_url = args.deep_view();
    args.push(swf_url.to_string());
    assert(args.deep_view() =~= before_url + seq![swf_url@]);
    LaunchCommand { env_remove, env_set, args }
}

/// The command for a movie found in a page, or none when no movie was found
/// (its url is empty).
pub fn plan_launch(info: &SwfInfo, cfg: &RuffleConfig, debug_mode: bool) -> (r: Option<LaunchCommand>)
    ensures
        r is None <==> info.url@.len() == 0,
        r matches Some(c) ==> {
            &&& c.env_remove.deep_view() == seq!["WAYLAND_DISPLAY"@]
            &&& pairs_view(c.env_set@) == launch_env_set_spec()
            &&& c.args.deep_view() == launch_args_spec(*cfg, info.url@, debug_mode)
        },
{
    if info.url.as_str().is_empty() {
        None
    } else {
        Some(build_launch_command(cfg, info.url.as_str(), debug_mode))
    }
}

/// The movie is always the player's last argument.
pub proof fn law_movie_is_last_argument(cfg: RuffleConfig, swf_url: Seq<char>, debug_mode: bool)
    ensures
        launch_args_spec(cfg, swf_url, debug_mode).last() == swf_url,
{
}

/// Debug mode differs from the normal launch only in leaving out `--no-gui`,
/// which the normal launch puts just before the movie.
pub proof fn law_debug_only_shows_gui(cfg: RuffleConfig, swf_url: Seq<char>)
    ensures
        launch_args_spec(cfg, swf_url, false) == launch_args_spec(cfg, swf_url, true).drop_last()
            + seq!["--no-gui"@, swf_url],
{
    let common = seq!["--scale"@, cfg.scale@] + flag_if(cfg.force_scale, "--force-scale"@)
        + option_if_set("--align"@, cfg.align@) + flag_if(cfg.force_align, "--force-align"@)
        + option_if_set("--tcp-connections"@, cfg.tcp_connections@) + socket_allow_args(
        cfg.socket_allow.deep_view(),
    ) + option_if_set("--quality"@, cfg.quality@);
    assert(launch_args_spec(cfg, swf_url, true) =~= common + seq![swf_url]);
    assert((common + seq![swf_url]).drop_last() =~= common);
    assert(launch_args_spec(cfg, swf_url, false) =~= common + seq!["--no-gui"@, swf_url]);
}


/// Every flag the settings switch on is passed, whatever the other settings:
/// `--force-scale` when `force_scale`, `--force-align` when `force_align`,
/// `--align` followed by the alignment when one is set, and `--no-gui` unless
/// in debug mode; the scale always follows `--scale` at the start.
pub proof fn law_settings_reach_arguments(cfg: RuffleConfig, swf_url: Seq<char>, debug_mode: bool)
    ensures
        ({
            let args = launch_args_spec(cfg, swf_url, debug_mode);
            &&& args.len() >= 3 && args[0] == "--scale"@ && args[1] == cfg.scale@
            &&& cfg.force_scale ==> args.contains("--force-scale"@)
            &&& cfg.force_align ==> args.contains("--force-align"@)
            &&& cfg.align@.len() > 0 ==> exists|k: int|
                0 <= k < args.len() - 1 && #[trigger] args[k] == "--align"@ && args[k + 1] == cfg.align@
            &&& !debug_mode ==> args.contains("--no-gui"@)
        }),
{
    let args = launch_args_spec(cfg, swf_url, debug_mode);
    let p1 = seq!["--scale"@, cfg.scale@];
    let p2 = p1 + flag_if(cfg.force_scale, "--force-scale"@);
    let p3 = p2 + option_if_set("--align"@, cfg.align@);
    let p4 = p3 + flag_if(cfg.force_align, "--force-align"@);
    let p5 = p4 + option_if_set("--tcp-connections"@, cfg.tcp_connections@);
    let p6 = p5 + socket_allow_args(cfg.socket_allow.deep_view());
    let p7 = p6 + option_if_set("--quality"@, cfg.quality@);
    let p8 = p7 + flag_if(!debug_mode, "--no-gui"@);
    assert(args == p8 + seq![swf_url]);
    assert(args[0] == p1[0]);
    assert(args[1] == p1[1]);
    if cfg.force_scale {
        assert(args[2] == p2[2]);
        assert(args.contains("--force-scale"@));
    }
    if cfg.align@.len() > 0 {
        let k = p2.len() as int;
        assert(args[k] == p3[k]);
        assert(args[k + 1] == p3[k + 1]);
    }
    if cfg.force_align {
        let k = p3.len() as int;
        assert(args[k] == p4[k]);
        assert(args.contains("--force-align"@));
    }
    if !debug_mode {
        let k = p7.len() as int;
        assert(args[k] == p8[k]);
        assert(args.contains("--no-gui"@));
    }
}


proof fn lemma_socket_allow_at(hosts: Seq<Seq<char>>, k: int)
    requires
        0 <= k < hosts.len(),
    ensures
        socket_allow_args(hosts).len() == 2 * hosts.len(),
        socket_allow_args(hosts)[2 * k] == socket_allow_flag(),
        socket_allow_args(hosts)[2 * k + 1] == hosts[k],
    decreases hosts.len(),
{
    let prev = socket_allow_args(hosts.drop_last());
    let pair = seq![socket_allow_flag(), hosts.last()];
    assert(socket_allow_args(hosts) == prev + pair);
    if k < hosts.len() - 1 {
        lemma_socket_allow_at(hosts.drop_last(), k);
        assert(hosts.drop_last()[k] == hosts[k]);
    } else {
        if hosts.len() > 1 {
            lemma_socket_allow_at(hosts.drop_last(), 0);
        }
        assert(prev.len() == 2 * k);
        assert(socket_allow_args(hosts)[2 * k] == pair[0]);
        assert(socket_allow_args(hosts)[2 * k + 1] == pair[1]);
    }
}

/// The allowed hosts come in order, each right after its own `--socket-allow`.
pub proof fn law_socket_allow_pairs(hosts: Seq<Seq<char>>)
    ensures
        socket_allow_args(hosts).len() == 2 * hosts.len(),
        forall|k: int|
            0 <= k < hosts.len() ==> #[trigger] socket_allow_args(hosts)[2 * k] == socket_allow_flag(),
        forall|k: int|
            0 <= k < hosts.len() ==> #[trigger] socket_allow_args(hosts)[2 * k + 1] == hosts[k],
{
    if hosts.len() == 0 {
        assert(socket_allow_args(hosts) == Seq::<Seq<char>>::empty());
    } else {
        lemma_socket_allow_at(hosts, 0);
    }
    assert forall|k: int|
        0 <= k < hosts.len() implies #[trigger] socket_allow_args(hosts)[2 * k] == socket_allow_flag() by {
        lemma_socket_allow_at(hosts, k);
    }
    assert forall|k: int|
        0 <= k < hosts.len() implies #[trigger] socket_allow_args(hosts)[2 * k + 1] == hosts[k] by {
        lemma_socket_allow_at(hosts, k);
    }
}

/// A TCP policy and a quality that are set are passed, each after its flag.
pub proof fn law_set_values_are_passed(cfg: RuffleConfig, swf_url: Seq<char>, debug_mode: bool)
    ensures
        ({
            let args = launch_args_spec(cfg, swf_url, debug_mode);
            &&& cfg.tcp_connections@.len() > 0 ==> exists|k: int|
                0 <= k < args.len() - 1 && #[trigger] args[k] == "--tcp-connections"@ && args[k + 1]
                    == cfg.tcp_connections@
            &&& cfg.quality@.len() > 0 ==> exists|k: int|
                0 <= k < args.len() - 1 && #[trigger] args[k] == "--quality"@ && args[k + 1]
                    == cfg.quality@
        }),
{
    let args = launch_args_spec(cfg, swf_url, debug_mode);
    let p4 = seq!["--scale"@, cfg.scale@] + flag_if(cfg.force_scale, "--force-scale"@)
        + option_if_set("--align"@, cfg.align@) + flag_if(cfg.force_align, "--force-align"@);
    let p5 = p4 + option_if_set("--tcp-connections"@, cfg.tcp_connections@);
    let p6 = p5 + socket_allow_args(cfg.socket_allow.deep_view());
    let p7 = p6 + option_if_set("--quality"@, cfg.quality@);
    let p8 = p7 + flag_if(!debug_mode, "--no-gui"@);
    assert(args == p8 + seq![swf_url]);
    if cfg.tcp_connections@.len() > 0 {
        let k = p4.len() as int;
        assert(args[k] == p5[k]);
        assert(args[k + 1] == p5[k + 1]);
    }
    if cfg.quality@.len() > 0 {
        let k = p6.len() as int;
        assert(args[k] == p7[k]);
        assert(args[k + 1] == p7[k + 1]);
    }
}

} // verus!
