//! Quadkey sharding: which database file an object at a given quadkey
//! level lives in. Shallow levels share one "base" database; deeper levels
//! are split by a four-character quadkey prefix, the deepest by an
//! eight-character one.

use crate::config::QuadShardConfig;
use crate::error::StoreError;
use crate::text::{decimal, decimal_string, join_path, path_join, trim_start_all, trim_start_matches};
use vstd::prelude::*;
use vstd::utf8::{decode_utf8, encode_utf8, is_char_boundary};

verus! {

/// The first `n` bytes of the UTF-8 text `s`, as text.
pub open spec fn byte_prefix(s: Seq<char>, n: nat) -> Seq<char> {
    decode_utf8(encode_utf8(s).take(n as int))
}

/// The byte length of `s`, at most `want`.
pub open spec fn capped_len(s: Seq<char>, want: nat) -> nat {
    if encode_utf8(s).len() < want {
        encode_utf8(s).len()
    } else {
        want
    }
}

/// The database a quadkey at `level` is stored in: "base" up to
/// `base_level`, then the quadkey's first four bytes below `split_level`,
/// its first eight from there on (fewer for a shorter quadkey).
pub open spec fn quad_db_name(cfg: QuadShardConfig, quadkey: Seq<char>, level: u32) -> Seq<char> {
    if level <= cfg.base_level {
        "base"@
    } else if level < cfg.split_level {
        byte_prefix(quadkey, capped_len(quadkey, 4))
    } else {
        byte_prefix(quadkey, capped_len(quadkey, 8))
    }
}

/// Slicing the quadkey for `level` falls on a character boundary.
pub open spec fn quad_slice_ok(cfg: QuadShardConfig, quadkey: Seq<char>, level: u32) -> bool {
    if level <= cfg.base_level {
        true
    } else if level < cfg.split_level {
        is_char_boundary(encode_utf8(quadkey), capped_len(quadkey, 4) as int)
    } else {
        is_char_boundary(encode_utf8(quadkey), capped_len(quadkey, 8) as int)
    }
}

/// The directory of the databases of `epoch` at `level`: the epoch's
/// directory under the data directory, with a subdirectory per level above
/// `base_level`.
pub open spec fn quad_dir(cfg: QuadShardConfig, epoch: Seq<char>, level: u32) -> Seq<char> {
    if level <= cfg.base_level {
        path_join(cfg.data_dir@, epoch)
    } else {
        path_join(path_join(cfg.data_dir@, epoch), decimal(level as nat))
    }
}

/// The path of database `name` with extension `ext` (leading dots dropped)
/// in `dir`.
pub open spec fn quad_file(dir: Seq<char>, name: Seq<char>, ext: Seq<char>) -> Seq<char> {
    path_join(dir, name + "."@ + trim_start_all(ext, "."@))
}

/// Routes quadkey-addressed objects to database files.
pub struct QuadShardManager {
    config: QuadShardConfig,
}

/// The first `n` bytes of `s`, which must end on a character boundary.
fn prefix_bytes(s: &str, n: usize) -> (r: String)
    requires
        n <= encode_utf8(s@).len(),
        is_char_boundary(encode_utf8(s@), n as int),
    ensures
        r@ == byte_prefix(s@, n as nat),
{
    let (head, _tail) = s.split_at(n);
    proof {
        vstd::utf8::encode_utf8_decode_utf8(head@);
        assert(encode_utf8(s@).subrange(0, n as int) =~= encode_utf8(s@).take(n as int));
    }
    head.to_owned()
}

impl QuadShardManager {
    /// A manager for the shards `config` describes.
    pub fn new(config: QuadShardConfig) -> (m: Self)
        ensures
            m.settings() == config,
    {
        QuadShardManager { config }
    }

    /// The manager's settings.
    pub closed spec fn settings(&self) -> QuadShardConfig {
        self.config
    }

    /// The manager's settings.
    pub fn config(&self) -> (c: &QuadShardConfig)
        ensures
            *c == self.settings(),
    {
        &self.config
    }

    /// The name of the database a quadkey at `level` belongs to, without
    /// checking its length.
    fn db_name(&self, quadkey: &str, level: u32) -> (r: String)
        requires
            quad_slice_ok(self.config, quadkey@, level),
        ensures
            r@ == quad_db_name(self.config, quadkey@, level),
    {
        let len = quadkey.as_bytes().len();
        if level <= self.config.base_level {
            proof { reveal_strlit("base"); }
            "base".to_owned()
        } else if level < self.config.split_level {
            let n = if len < 4 { len } else { 4 };
            prefix_bytes(quadkey, n)
        } else {
            let n = if len < 8 { len } else { 8 };
            prefix_bytes(quadkey, n)
        }
    }

    /// The database name and the paths of the key-value and metadata files
    /// that hold objects of `epoch` at `quadkey` and `level`, without
    /// opening anything. A quadkey shorter than its prefix gives a shorter
    /// name.
    pub fn route_paths(&self, epoch: &str, quadkey: &str, level: u32) -> (r: (String, String, String))
        requires
            quad_slice_ok(self.settings(), quadkey@, level),
        ensures
            r.0@ == quad_db_name(self.settings(), quadkey@, level),
            r.1@ == quad_file(quad_dir(self.settings(), epoch@, level), r.0@, self.settings().kv_ext@),
            r.2@ == quad_file(quad_dir(self.settings(), epoch@, level), r.0@, self.settings().meta_ext@),
    {
        let name = self.db_name(quadkey, level);
        let ext = trim_start_matches(self.config.kv_ext.as_str(), ".");
        let meta_ext = trim_start_matches(self.config.meta_ext.as_str(), ".");
        let epoch_dir = join_path(self.config.data_dir.as_str(), epoch);
        let dir = if level <= self.config.base_level {
            epoch_dir
        } else {
            let lv = decimal_string(level as u64);
            join_path(epoch_dir.as_str(), lv.as_str())
        };
        let kv_file = crate::text::concat3(name.as_str(), ".", ext.as_str());
        let meta_file = crate::text::concat3(name.as_str(), ".", meta_ext.as_str());
        let kv_path = join_path(dir.as_str(), kv_file.as_str());
        let meta_path = join_path(dir.as_str(), meta_file.as_str());
        (name, kv_path, meta_path)
    }

    /// The database a quadkey at `level` is stored in, refusing a quadkey
    /// shorter than the prefix its level is split by.
    pub fn shard_name(&self, quadkey: &str, level: u32) -> (r: Result<String, StoreError>)
        requires
            quad_slice_ok(self.settings(), quadkey@, level),
        ensures
            match r {
                Ok(name) => {
                    &&& name@ == quad_db_name(self.settings(), quadkey@, level)
                    &&& (level <= self.settings().base_level
                        || (level < self.settings().split_level && encode_utf8(quadkey@).len() >= 4)
                        || (level >= self.settings().split_level && encode_utf8(quadkey@).len() >= 8))
                },
                Err(e) => {
                    &&& e is InvalidArgument
                    &&& level > self.settings().base_level
                    &&& (level < self.settings().split_level ==> encode_utf8(quadkey@).len() < 4)
                    &&& (level >= self.settings().split_level ==> encode_utf8(quadkey@).len() < 8)
                },
            },
    {
        let len = quadkey.as_bytes().len();
        if level > self.config.base_level {
            let need: usize = if level < self.config.split_level { 4 } else { 8 };
            if len < need {
                let lv = decimal_string(level as u64);
                let ln = decimal_string(len as u64);
                let head = crate::text::concat3("quadkey 长度不足: level=", lv.as_str(), ", len=");
                let msg = crate::text::concat2(head.as_str(), ln.as_str());
                return Err(StoreError::InvalidArgument(msg));
            }
        }
        Ok(self.db_name(quadkey, level))
    }
}

} // verus!
