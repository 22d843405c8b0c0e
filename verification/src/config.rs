//! Parsing the configuration text: the vault root, the ignore list, and
//! the visibility policy.  Reading the file is the caller's work.
use vstd::prelude::*;

use crate::model::{ConfigError, PrivateConfig, UserConfig};
use crate::yaml::{field_bool, field_list, field_string, yaml_doc, yaml_get_bool,
    yaml_get_string, yaml_get_string_list, yaml_parse};

verus! {

/// The marker put before the text of a disabled link when none is
/// configured: a lock, as UTF-8 bytes.
pub open spec fn default_icon() -> Seq<u8> {
    seq![240u8, 159u8, 148u8, 146u8]
}

/// The default marker: a lock, as UTF-8 bytes.
pub fn default_icon_vec() -> (r: Vec<u8>)
    ensures
        r@ == default_icon(),
{
    let mut v: Vec<u8> = Vec::new();
    v.push(240u8);
    v.push(159u8);
    v.push(148u8);
    v.push(146u8);
    proof {
        assert(v@ =~= default_icon());
    }
    v
}

/// What parsing the configuration text must yield.  Empty text and text
/// that is not a YAML document are errors, as is a missing root path.
/// The ignore list defaults to empty, the policy to hiding private
/// targets, the marker to the default icon.
pub open spec fn config_result_ok(content: Seq<u8>, r: Result<UserConfig, ConfigError>) -> bool {
    if content.len() == 0 {
        r == Result::<UserConfig, ConfigError>::Err(ConfigError::Empty)
    } else {
        match yaml_doc(content) {
            None => r matches Err(e) && e is Malformed,
            Some(d) => match field_string(d, "root_path"@) {
                None => r == Result::<UserConfig, ConfigError>::Err(ConfigError::MissingRootPath),
                Some(root) => r matches Ok(c) && {
                    &&& c.root_path@ == root
                    &&& c.ignore.deep_view() == (match field_list(d, "ignore"@) {
                        Some(items) => items,
                        None => Seq::<Seq<u8>>::empty(),
                    })
                    &&& c.private.expose == (field_bool(d, "private_include"@) == Some(true))
                    &&& c.private.icon@ == (match field_string(d, "private_icon"@) {
                        Some(icon) => icon,
                        None => default_icon(),
                    })
                },
            },
        }
    }
}

/// Parses the configuration text: the vault root path (required), the
/// list of ignored directory names (default empty), whether private
/// content may be exposed (key `private_include`, default no), and the
/// marker for disabled links (key `private_icon`, default the lock).
pub fn parse_config(content: &[u8]) -> (r: Result<UserConfig, ConfigError>)
    ensures
        config_result_ok(content@, r),
{
    if content.len() == 0 {
        return Err(ConfigError::Empty);
    }
    let v = match yaml_parse(content) {
        Ok(v) => v,
        Err(message) => {
            return Err(ConfigError::Malformed { message });
        },
    };
    let root_path = match yaml_get_string(&v, "root_path") {
        Some(p) => p,
        None => {
            return Err(ConfigError::MissingRootPath);
        },
    };
    let ignore = match yaml_get_string_list(&v, "ignore") {
        Some(l) => l,
        None => {
            let e: Vec<Vec<u8>> = Vec::new();
            proof {
                assert(e.deep_view() =~= Seq::<Seq<u8>>::empty());
            }
            e
        },
    };
    let expose = match yaml_get_bool(&v, "private_include") {
        Some(b) => b,
        None => false,
    };
    let icon = match yaml_get_string(&v, "private_icon") {
        Some(i) => i,
        None => default_icon_vec(),
    };
    proof {
        assert(root_path@ =~= root_path.deep_view());
        assert(icon@ =~= icon.deep_view());
    }
    Ok(UserConfig { root_path, ignore, private: PrivateConfig { expose, icon } })
}

} // verus!
