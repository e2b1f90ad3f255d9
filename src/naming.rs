//! Resolution of the namespace name from the command line or the manifest,
//! with the product-key prefix stripped.
use vstd::prelude::*;
use crate::metadata::Metadata;
use crate::text::{has_prefix, starts_with};
use crate::types::Error;

verus! {

/// The name argument that asks for the manifest's name.
pub open spec fn placeholder() -> Seq<char> {
    seq!['-']
}

/// The prefix that a name may carry: the product key and a dash.
pub open spec fn key_prefix(productkey: Seq<char>) -> Seq<char> {
    productkey + seq!['-']
}

pub open spec fn missing_name_text() -> Seq<char> {
    "name passed as '-' but no name provided in manifest metadata"@
}

pub open spec fn missing_prefix_text(name: Seq<char>, productkey: Seq<char>) -> Seq<char> {
    "Expected that name '"@ + name + "' is prefixed with product key '"@ + productkey + "'"@
}

/// The resolved name, or the text of the configuration error.
///
/// The placeholder takes the manifest's name, which must then carry the
/// product-key prefix; it is stripped. An explicit name is used as given,
/// its prefix stripped only where `strip` asks for it and it is there.
pub open spec fn resolved_name(
    productkey: Seq<char>,
    name: Seq<char>,
    strip: bool,
    manifest_name: Option<Seq<char>>,
) -> Result<Seq<char>, Seq<char>> {
    let p = key_prefix(productkey);
    if name == placeholder() {
        match manifest_name {
            None => Err(missing_name_text()),
            Some(m) => if starts_with(m, p) {
                Ok(m.skip(p.len() as int))
            } else {
                Err(missing_prefix_text(m, productkey))
            },
        }
    } else if strip && starts_with(name, p) {
        Ok(name.skip(p.len() as int))
    } else {
        Ok(name)
    }
}

/// Whether `e` is a configuration error with text `detail`.
pub open spec fn is_configuration_error(e: Error, detail: Seq<char>) -> bool {
    match e {
        Error::Configuration(d) => d@ == detail,
        _ => false,
    }
}

/// The namespace name to request, from the name argument, the strip-prefix
/// flag and the manifest's metadata.
pub fn resolve_name(productkey: &str, name: &str, strip_prefix: bool, metadata: &Metadata) -> (r: Result<
    String,
    Error,
>)
    ensures
        ({
            let manifest_name = match metadata.name {
                Some(n) => Some(n@),
                None => None,
            };
            match r {
                Ok(s) => resolved_name(productkey@, name@, strip_prefix, manifest_name) == Ok::<
                    _,
                    Seq<char>,
                >(s@),
                Err(e) => exists|d: Seq<char>|
                    resolved_name(productkey@, name@, strip_prefix, manifest_name) == Err::<
                        Seq<char>,
                        _,
                    >(d) && is_configuration_error(e, d),
            }
        }),
{
    proof {
        reveal_strlit("-");
    }
    let mut prefix = String::from_str(productkey);
    prefix.append("-");
    let is_placeholder = name.unicode_len() == 1 && name.get_char(0) == '-';
    proof {
        if name@ == placeholder() {
            assert(name@[0] == '-');
        }
        if is_placeholder {
            assert(name@ =~= placeholder());
        }
        assert(is_placeholder <==> name@ == placeholder());
        assert(prefix@ == key_prefix(productkey@));
    }
    let strict;
    let candidate: &str;
    if is_placeholder {
        match &metadata.name {
            None => {
                let d = String::from_str("name passed as '-' but no name provided in manifest metadata");
                let e = Error::Configuration(d);
                assert(is_configuration_error(e, missing_name_text()));
                return Err(e);
            },
            Some(m) => {
                candidate = m.as_str();
            },
        }
        strict = true;
    } else {
        candidate = name;
        strict = false;
    }
    if strip_prefix || strict {
        if has_prefix(candidate, prefix.as_str()) {
            let n = candidate.unicode_len();
            let rest = candidate.substring_char(prefix.as_str().unicode_len(), n);
            return Ok(rest.to_owned());
        } else if strict {
            let mut d = String::from_str("Expected that name '");
            d.append(candidate);
            d.append("' is prefixed with product key '");
            d.append(productkey);
            d.append("'");
            let e = Error::Configuration(d);
            assert(is_configuration_error(e, missing_prefix_text(candidate@, productkey@)));
            return Err(e);
        }
    }
    Ok(candidate.to_owned())
}

} // verus!
