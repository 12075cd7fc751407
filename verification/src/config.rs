//! Configuration of an instance: identity, network, transfer and security
//! settings, with their defaults.
use vstd::prelude::*;
use crate::text::concat_str;
use crate::paths::{join_path, joined};

verus! {

#[derive(Debug, Clone)]
pub struct Config {
    pub instance: InstanceConfig,
    pub network: NetworkConfig,
    pub transfer: TransferConfig,
    pub security: SecurityConfig,
}

#[derive(Debug, Clone)]
pub struct InstanceConfig {
    pub instance_id: String,
    pub instance_name: String,
    pub device_name: String,
}

#[derive(Debug, Clone)]
pub struct NetworkConfig {
    pub discovery_port: u16,
    pub transfer_port: u16,
    pub broadcast_interval: u64,
    /// The signalling server's `host:port`, or several separated by commas.
    pub signal_server_addr: String,
    /// A self-hosted iroh relay; empty to use the one the server announces.
    pub iroh_relay_url: String,
    /// STUN servers to use in place of the built-in list.
    pub stun_servers: Vec<String>,
}

#[derive(Debug, Clone)]
pub struct TransferConfig {
    pub chunk_size: u32,
    pub max_concurrent: usize,
    pub enable_compression: bool,
    pub download_dir: String,
    pub speed_limit_mbps: u32,
    pub require_confirmation: bool,
    /// Parallel QUIC streams per iroh transfer.
    pub iroh_stream_count: u32,
    /// QUIC stream receive window, in MiB.
    pub quic_stream_window_mb: u32,
    /// History records per page.
    pub history_page_size: u32,
    pub enable_sharing: bool,
    /// Whether downloads of shared files need a confirmation.
    pub sharing_require_confirm: bool,
}

#[derive(Debug, Clone)]
pub struct SecurityConfig {
    pub require_auth: bool,
    pub password: String,
    pub allowed_devices: Vec<String>,
    pub enable_tls: bool,
}

// ---------------------------------------------------------------------------
// Outside sources of identity: clock, random identifiers, host name.
// ---------------------------------------------------------------------------

/// The sub-second part of the current wall-clock time, in nanoseconds
/// (`SystemTime::now().duration_since(UNIX_EPOCH)`, `subsec_nanos`; zero
/// before the epoch).  It is always below one second.
#[verifier::external_body]
pub(crate) fn clock_subsec_nanos() -> (n: u32)
    ensures
        n < 1_000_000_000,
{
    std::time::SystemTime::now().duration_since(std::time::UNIX_EPOCH).unwrap_or_default().subsec_nanos()
}

/// A lower-case hexadecimal digit.
pub open spec fn is_lower_hex_digit(c: char) -> bool {
    ('0' <= c <= '9') || ('a' <= c <= 'f')
}

/// The hyphenated text form of a UUID: 36 characters, `-` at positions 8,
/// 13, 18 and 23, lower-case hexadecimal digits elsewhere.
pub open spec fn hyphenated_uuid(s: Seq<char>) -> bool {
    &&& s.len() == 36
    &&& forall|i: int|
        0 <= i < 36 ==> if i == 8 || i == 13 || i == 18 || i == 23 {
            s[i] == '-'
        } else {
            is_lower_hex_digit(#[trigger] s[i])
        }
}

/// A fresh random (version 4) UUID in its hyphenated form
/// (`Uuid::new_v4().to_string()`, which formats it as lower-case hyphenated
/// hexadecimal).
#[verifier::external_body]
pub fn generate_instance_id() -> (id: String)
    ensures
        hyphenated_uuid(id@),
{
    uuid::Uuid::new_v4().to_string()
}

/// The machine's host name when the system reports one that is valid
/// Unicode (`hostname::get`, then `OsString::into_string`).
#[verifier::external_body]
fn host_name() -> (h: Option<String>)
{
    hostname::get().ok().and_then(|h| h.into_string().ok())
}

// ---------------------------------------------------------------------------
// Random display names.
// ---------------------------------------------------------------------------

pub open spec fn title_table() -> Seq<&'static str> {
    seq![
        "战神",
        "龙王",
        "大佬",
        "天才",
        "绝世",
        "无敌",
        "至尊",
        "剑神",
        "鬼才",
        "邪帝",
        "魔主",
        "王者",
        "传说",
        "超神",
        "万古",
        "逆天",
        "混沌",
        "虚空",
        "上古",
        "太古",
        "摸鱼",
        "内卷",
        "躺平",
        "佛系",
        "养生",
        "干饭",
        "暴躁",
        "社恐",
        "离谱",
        "抽象",
        "破防",
        "萌系",
        "毒舌",
        "傲骨",
        "孤独",
        "清醒",
        "凉薄",
        "随缘",
        "散漫",
        "咸鱼",
        "迷途",
        "丧气",
        "倔强",
        "执着",
        "浪荡",
        "飘零",
        "落魄",
        "高冷",
        "霸道",
        "腹黑",
        "低调",
        "嚣张",
        "傲娇",
        "别扭",
        "迷糊",
        "鬼马",
        "爆裂",
        "佛挡",
        "神挡",
        "绝顶"
    ]
}

pub open spec fn name_table() -> Seq<&'static str> {
    seq![
        "萧炎",
        "林动",
        "张若尘",
        "苏宇",
        "叶辰",
        "唐三",
        "萧逸",
        "陆沉",
        "秦朗",
        "沈长青",
        "苏天",
        "陈长生",
        "叶玄",
        "云飞扬",
        "秦珏",
        "叶星辰",
        "林战",
        "夜煊",
        "枫扬",
        "苏铭",
        "莫浮生",
        "谢镜渊",
        "顾莫言",
        "苏晨",
        "云霄",
        "陆晨",
        "陆离",
        "苏凉",
        "叶北",
        "秦风",
        "陆鸣",
        "萧战",
        "叶天",
        "林枫",
        "叶飞",
        "萧然",
        "云天",
        "陈风",
        "白泽",
        "叶尘",
        "令狐冲",
        "杨过",
        "张无忌",
        "乔峰",
        "段誉",
        "韦小宝",
        "郭靖",
        "慕容复",
        "石破天",
        "狄云",
        "袁承志",
        "胡斐",
        "韦一笑",
        "岳不群",
        "游坦之",
        "木婉清",
        "阿紫",
        "周芷若",
        "小龙女",
        "黄蓉",
        "孤独患者",
        "暗里着迷",
        "凉薄如风",
        "流年似水",
        "半城烟沙",
        "往事随风",
        "清欢入骨",
        "烟雨江南",
        "清风徐来",
        "冷夜无声",
        "浅笑安然",
        "梦里花落",
        "繁华落尽",
        "那年初见",
        "不言殇",
        "叹浮生",
        "醉清风",
        "忆流年",
        "问苍茫",
        "望尽天涯",
        "此心安处",
        "随遇而安",
        "陌上行人",
        "尘埃落定"
    ]
}

fn titles() -> (v: Vec<&'static str>)
    ensures
        v@ == title_table(),
{
    let v: Vec<&'static str> = vec![
        "战神",
        "龙王",
        "大佬",
        "天才",
        "绝世",
        "无敌",
        "至尊",
        "剑神",
        "鬼才",
        "邪帝",
        "魔主",
        "王者",
        "传说",
        "超神",
        "万古",
        "逆天",
        "混沌",
        "虚空",
        "上古",
        "太古",
        "摸鱼",
        "内卷",
        "躺平",
        "佛系",
        "养生",
        "干饭",
        "暴躁",
        "社恐",
        "离谱",
        "抽象",
        "破防",
        "萌系",
        "毒舌",
        "傲骨",
        "孤独",
        "清醒",
        "凉薄",
        "随缘",
        "散漫",
        "咸鱼",
        "迷途",
        "丧气",
        "倔强",
        "执着",
        "浪荡",
        "飘零",
        "落魄",
        "高冷",
        "霸道",
        "腹黑",
        "低调",
        "嚣张",
        "傲娇",
        "别扭",
        "迷糊",
        "鬼马",
        "爆裂",
        "佛挡",
        "神挡",
        "绝顶"
    ];
    assert(v@ =~= title_table());
    v
}

fn names() -> (v: Vec<&'static str>)
    ensures
        v@ == name_table(),
{
    let v: Vec<&'static str> = vec![
        "萧炎",
        "林动",
        "张若尘",
        "苏宇",
        "叶辰",
        "唐三",
        "萧逸",
        "陆沉",
        "秦朗",
        "沈长青",
        "苏天",
        "陈长生",
        "叶玄",
        "云飞扬",
        "秦珏",
        "叶星辰",
        "林战",
        "夜煊",
        "枫扬",
        "苏铭",
        "莫浮生",
        "谢镜渊",
        "顾莫言",
        "苏晨",
        "云霄",
        "陆晨",
        "陆离",
        "苏凉",
        "叶北",
        "秦风",
        "陆鸣",
        "萧战",
        "叶天",
        "林枫",
        "叶飞",
        "萧然",
        "云天",
        "陈风",
        "白泽",
        "叶尘",
        "令狐冲",
        "杨过",
        "张无忌",
        "乔峰",
        "段誉",
        "韦小宝",
        "郭靖",
        "慕容复",
        "石破天",
        "狄云",
        "袁承志",
        "胡斐",
        "韦一笑",
        "岳不群",
        "游坦之",
        "木婉清",
        "阿紫",
        "周芷若",
        "小龙女",
        "黄蓉",
        "孤独患者",
        "暗里着迷",
        "凉薄如风",
        "流年似水",
        "半城烟沙",
        "往事随风",
        "清欢入骨",
        "烟雨江南",
        "清风徐来",
        "冷夜无声",
        "浅笑安然",
        "梦里花落",
        "繁华落尽",
        "那年初见",
        "不言殇",
        "叹浮生",
        "醉清风",
        "忆流年",
        "问苍茫",
        "望尽天涯",
        "此心安处",
        "随遇而安",
        "陌上行人",
        "尘埃落定"
    ];
    assert(v@ =~= name_table());
    v
}

/// The display name chosen by the number `seed`: a title picked by
/// `seed mod 60` followed by a name picked by `(seed / 60 + 7 * seed) mod 84`.
pub open spec fn random_name_of(seed: nat) -> Seq<char> {
    title_table()[(seed % 60) as int]@ + name_table()[((seed / 60 + seed * 7) % 84) as int]@
}

/// The display name chosen by `seed`.
pub fn random_name_from_seed(seed: u32) -> (name: String)
    ensures
        name@ == random_name_of(seed as nat),
{
    let t = titles();
    let n = names();
    let s: u64 = seed as u64;
    let ti: usize = (s % 60) as usize;
    let ni: usize = ((s / 60 + s * 7) % 84) as usize;
    concat_str(t[ti], n[ni])
}

/// A display name chosen by the sub-second part of the clock.
pub fn generate_random_name() -> (name: String)
    ensures
        exists|seed: nat| seed < 1_000_000_000 && name@ == random_name_of(seed),
{
    let seed = clock_subsec_nanos();
    random_name_from_seed(seed)
}

pub fn default_instance_name() -> (name: String)
    ensures
        exists|seed: nat| seed < 1_000_000_000 && name@ == random_name_of(seed),
{
    generate_random_name()
}

/// The device name to use given what the system reports: its host name,
/// or `Unknown` when there is none or it is empty.
pub fn device_name_or_unknown(host: Option<String>) -> (name: String)
    ensures
        match host {
            Some(h) => if h@.len() > 0 {
                name@ == h@
            } else {
                name@ == "Unknown"@
            },
            None => name@ == "Unknown"@,
        },
        name@.len() > 0,
{
    proof {
        reveal_strlit("Unknown");
    }
    match host {
        Some(h) => {
            if h.as_str().is_empty() {
                "Unknown".to_string()
            } else {
                h
            }
        },
        None => "Unknown".to_string(),
    }
}

/// The device name by default: the host name the system reports, or
/// `Unknown` (see [`device_name_or_unknown`]); never empty.
pub fn default_device_name() -> (name: String)
    ensures
        name@.len() > 0,
{
    device_name_or_unknown(host_name())
}

pub fn default_broadcast_interval() -> (v: u64)
    ensures
        v == 5,
{
    5
}

pub fn default_chunk_size() -> (v: u32)
    ensures
        v == 1048576,
{
    1048576
}

pub fn default_max_concurrent() -> (v: usize)
    ensures
        v == 3,
{
    3
}

pub fn default_require_auth() -> (v: bool)
    ensures
        v,
{
    true
}

pub fn default_require_confirmation() -> (v: bool)
    ensures
        v,
{
    true
}

pub fn default_iroh_stream_count() -> (v: u32)
    ensures
        v == 4,
{
    4
}

pub fn default_quic_stream_window_mb() -> (v: u32)
    ensures
        v == 32,
{
    32
}

pub fn default_history_page_size() -> (v: u32)
    ensures
        v == 20,
{
    20
}

pub fn default_sharing_require_confirm() -> (v: bool)
    ensures
        v,
{
    true
}

impl Default for InstanceConfig {
    fn default() -> (c: Self)
        ensures
            hyphenated_uuid(c.instance_id@),
            c.instance_id@.len() == 36,
            exists|seed: nat| seed < 1_000_000_000 && c.instance_name@ == random_name_of(seed),
            c.device_name@.len() > 0,
    {
        InstanceConfig {
            instance_id: generate_instance_id(),
            instance_name: default_instance_name(),
            device_name: default_device_name(),
        }
    }
}

impl Default for NetworkConfig {
    fn default() -> (c: Self)
        ensures
            c.discovery_port == 0,
            c.transfer_port == 0,
            c.broadcast_interval == 5,
            c.signal_server_addr@.len() == 0,
            c.iroh_relay_url@.len() == 0,
            c.stun_servers@.len() == 0,
    {
        NetworkConfig {
            discovery_port: 0,
            transfer_port: 0,
            broadcast_interval: default_broadcast_interval(),
            signal_server_addr: String::new(),
            iroh_relay_url: String::new(),
            stun_servers: Vec::new(),
        }
    }
}

impl Default for TransferConfig {
    fn default() -> (c: Self)
        ensures
            c.chunk_size == 1048576,
            c.max_concurrent == 3,
            !c.enable_compression,
            c.download_dir@.len() == 0,
            c.speed_limit_mbps == 0,
            c.require_confirmation,
            c.iroh_stream_count == 4,
            c.quic_stream_window_mb == 32,
            c.history_page_size == 20,
            !c.enable_sharing,
            c.sharing_require_confirm,
    {
        TransferConfig {
            chunk_size: default_chunk_size(),
            max_concurrent: default_max_concurrent(),
            enable_compression: false,
            download_dir: String::new(),
            speed_limit_mbps: 0,
            require_confirmation: default_require_confirmation(),
            iroh_stream_count: default_iroh_stream_count(),
            quic_stream_window_mb: default_quic_stream_window_mb(),
            history_page_size: default_history_page_size(),
            enable_sharing: false,
            sharing_require_confirm: default_sharing_require_confirm(),
        }
    }
}

impl Default for SecurityConfig {
    fn default() -> (c: Self)
        ensures
            c.require_auth,
            c.password@.len() == 0,
            c.allowed_devices@.len() == 0,
            !c.enable_tls,
    {
        SecurityConfig {
            require_auth: default_require_auth(),
            password: String::new(),
            allowed_devices: Vec::new(),
            enable_tls: false,
        }
    }
}

/// The user's home directory as `dirs::home_dir` finds it (from the
/// environment or the password database), as text; `None` when there is none
/// or it is not valid Unicode.  It depends on the machine, so nothing more
/// is said of it.
#[verifier::external_body]
fn home_dir() -> (h: Option<String>)
{
    dirs::home_dir().and_then(|p| p.into_os_string().into_string().ok())
}

/// Where the configuration is kept: `.netfile/config.toml` under the home
/// directory, or under the current directory when there is no home.
pub open spec fn config_path_of(home: Option<Seq<char>>) -> Seq<char> {
    let base = match home {
        Some(h) => h,
        None => "."@,
    };
    joined(joined(base, ".netfile"@), "config.toml"@)
}

/// The configuration file's path for the home directory `home`.
pub fn config_path_in(home: Option<String>) -> (p: String)
    ensures
        p@ == config_path_of(match home {
            Some(h) => Some(h@),
            None => None,
        }),
{
    let base = match home {
        Some(h) => h,
        None => ".".to_string(),
    };
    let dir = join_path(base.as_str(), ".netfile");
    join_path(dir.as_str(), "config.toml")
}

impl Config {
    /// The configuration file's path for this user.
    pub fn default_path() -> (p: String)
        ensures
            exists|home: Option<Seq<char>>| p@ == config_path_of(home),
    {
        config_path_in(home_dir())
    }
}

impl Default for Config {
    fn default() -> (c: Self)
        ensures
            hyphenated_uuid(c.instance.instance_id@),
            c.instance.instance_id@.len() == 36,
            exists|seed: nat| seed < 1_000_000_000 && c.instance.instance_name@ == random_name_of(seed),
            c.instance.device_name@.len() > 0,
            c.network.discovery_port == 0,
            c.network.transfer_port == 0,
            c.network.broadcast_interval == 5,
            c.network.signal_server_addr@.len() == 0,
            c.network.iroh_relay_url@.len() == 0,
            c.network.stun_servers@.len() == 0,
            c.transfer.chunk_size == 1048576,
            c.transfer.max_concurrent == 3,
            !c.transfer.enable_compression,
            c.transfer.download_dir@.len() == 0,
            c.transfer.speed_limit_mbps == 0,
            c.transfer.require_confirmation,
            c.transfer.iroh_stream_count == 4,
            c.transfer.quic_stream_window_mb == 32,
            c.transfer.history_page_size == 20,
            !c.transfer.enable_sharing,
            c.transfer.sharing_require_confirm,
            c.security.require_auth,
            c.security.password@.len() == 0,
            c.security.allowed_devices@.len() == 0,
            !c.security.enable_tls,
    {
        Config {
            instance: InstanceConfig::default(),
            network: NetworkConfig::default(),
            transfer: TransferConfig::default(),
            security: SecurityConfig::default(),
        }
    }
}

} // verus!
