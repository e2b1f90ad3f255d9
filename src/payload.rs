//! The namespace request and the fields it puts on the wire.
use vstd::prelude::*;
use crate::extra::{extra_view, names_distinct, ExtraProps};
use crate::labels::{pairs_of, Annotations, KeyValue, Labels};
use crate::naming::is_configuration_error;
use crate::types::Error;
use crate::vault::{rendered, VaultServiceAccounts};

verus! {

/// A request for a namespace.
#[derive(Debug)]
pub struct NSDef {
    pub productkey: String,
    pub ttl: String,
    pub cluster: String,
    pub namespace: String,
    pub labels: Labels,
    pub annotations: Annotations,
    pub vault_service_accounts: VaultServiceAccounts,
    pub extra_properties: ExtraProps,
}

/// The value of one top-level field of the request object.
#[derive(Debug)]
pub enum WireValue {
    /// A string.
    Text(String),
    /// A list of `{key, value}` objects.
    Pairs(Vec<KeyValue>),
    /// An object `{service_account_name: ...}`.
    VaultConfig(String),
    /// A JSON value as given.
    Raw(serde_json::Value),
}

/// What a [`WireValue`] holds, as plain values.
pub enum WireModel {
    Text(Seq<char>),
    Pairs(Seq<(Seq<char>, Seq<char>)>),
    VaultConfig(Seq<char>),
    Raw(serde_json::Value),
}

impl View for WireValue {
    type V = WireModel;

    open spec fn view(&self) -> WireModel {
        match self {
            WireValue::Text(s) => WireModel::Text(s@),
            WireValue::Pairs(v) => WireModel::Pairs(pairs_of(v@)),
            WireValue::VaultConfig(s) => WireModel::VaultConfig(s@),
            WireValue::Raw(j) => WireModel::Raw(*j),
        }
    }
}

/// One top-level field of the request object.
#[derive(Debug)]
pub struct WireField {
    pub name: String,
    pub value: WireValue,
}

impl View for WireField {
    type V = (Seq<char>, WireModel);

    open spec fn view(&self) -> (Seq<char>, WireModel) {
        (self.name@, self.value@)
    }
}

pub open spec fn fields_view(v: Seq<WireField>) -> Seq<(Seq<char>, WireModel)> {
    v.map_values(|f: WireField| f@)
}

/// The four fields that every request carries.
pub open spec fn required_fields(d: NSDef) -> Seq<(Seq<char>, WireModel)> {
    seq![
        ("productkey"@, WireModel::Text(d.productkey@)),
        ("ttl"@, WireModel::Text(d.ttl@)),
        ("cluster"@, WireModel::Text(d.cluster@)),
        ("namespace"@, WireModel::Text(d.namespace@)),
    ]
}

/// Each extra property as a top-level field of its own.
pub open spec fn extra_fields(extra: Seq<(Seq<char>, serde_json::Value)>) -> Seq<(Seq<char>, WireModel)> {
    extra.map_values(|e: (Seq<char>, serde_json::Value)| (e.0, WireModel::Raw(e.1)))
}

/// The request object's fields in order: the required ones; `labels` and
/// `annotations` where not empty; `vault_config` where the rendered account
/// list is not empty; then the extra properties flattened in. Where an extra
/// property repeats a name, the later field wins in the JSON object.
pub open spec fn wire_of(d: NSDef) -> Seq<(Seq<char>, WireModel)> {
    required_fields(d) + (if d.labels@.len() > 0 {
        seq![("labels"@, WireModel::Pairs(pairs_of(d.labels@)))]
    } else {
        Seq::empty()
    }) + (if d.annotations@.len() > 0 {
        seq![("annotations"@, WireModel::Pairs(pairs_of(d.annotations@)))]
    } else {
        Seq::empty()
    }) + (if rendered(d.vault_service_accounts@).len() > 0 {
        seq![("vault_config"@, WireModel::VaultConfig(rendered(d.vault_service_accounts@)))]
    } else {
        Seq::empty()
    }) + extra_fields(extra_view(d.extra_properties@))
}

pub open spec fn empty_field_text(field: Seq<char>) -> Seq<char> {
    field + " must not be empty"@
}

fn empty_field_error(field: &str) -> (e: Error)
    ensures
        is_configuration_error(e, empty_field_text(field@)),
{
    let mut d = String::from_str(field);
    d.append(" must not be empty");
    Error::Configuration(d)
}

impl NSDef {
    /// Assembles a request. The extra properties are a mapping: no name
    /// occurs twice. The product key, TTL, cluster and namespace must not be
    /// empty; the first that is, in that order, is reported.
    pub fn new(
        productkey: String,
        ttl: String,
        cluster: String,
        namespace: String,
        labels: Labels,
        annotations: Annotations,
        vault_service_accounts: VaultServiceAccounts,
        extra_properties: ExtraProps,
    ) -> (r: Result<NSDef, Error>)
        requires
            names_distinct(extra_view(extra_properties@)),
        ensures
            match r {
                Ok(d) => {
                    &&& productkey@.len() > 0 && ttl@.len() > 0 && cluster@.len() > 0 && namespace@.len() > 0
                    &&& d.productkey == productkey && d.ttl == ttl && d.cluster == cluster
                    &&& d.namespace == namespace && d.labels == labels && d.annotations == annotations
                    &&& d.vault_service_accounts == vault_service_accounts
                    &&& d.extra_properties == extra_properties
                },
                Err(e) => if productkey@.len() == 0 {
                    is_configuration_error(e, empty_field_text("productkey"@))
                } else if ttl@.len() == 0 {
                    is_configuration_error(e, empty_field_text("ttl"@))
                } else if cluster@.len() == 0 {
                    is_configuration_error(e, empty_field_text("cluster"@))
                } else {
                    namespace@.len() == 0 && is_configuration_error(e, empty_field_text("namespace"@))
                },
            },
    {
        if productkey.as_str().unicode_len() == 0 {
            return Err(empty_field_error("productkey"));
        }
        if ttl.as_str().unicode_len() == 0 {
            return Err(empty_field_error("ttl"));
        }
        if cluster.as_str().unicode_len() == 0 {
            return Err(empty_field_error("cluster"));
        }
        if namespace.as_str().unicode_len() == 0 {
            return Err(empty_field_error("namespace"));
        }
        Ok(NSDef {
            productkey,
            ttl,
            cluster,
            namespace,
            labels,
            annotations,
            vault_service_accounts,
            extra_properties,
        })
    }

    /// The top-level fields of the request object, in the order they are
    /// written, empty sections left out and extra properties flattened in.
    pub fn into_wire(self) -> (r: Vec<WireField>)
        ensures
            fields_view(r@) == wire_of(self),
    {
        let ghost d = self;
        let NSDef {
            productkey,
            ttl,
            cluster,
            namespace,
            labels,
            annotations,
            vault_service_accounts,
            extra_properties,
        } = self;
        let mut r: Vec<WireField> = Vec::new();
        r.push(WireField { name: String::from_str("productkey"), value: WireValue::Text(productkey) });
        r.push(WireField { name: String::from_str("ttl"), value: WireValue::Text(ttl) });
        r.push(WireField { name: String::from_str("cluster"), value: WireValue::Text(cluster) });
        r.push(WireField { name: String::from_str("namespace"), value: WireValue::Text(namespace) });
        proof {
            assert(fields_view(r@) =~= required_fields(d));
        }
        let ghost s1 = fields_view(r@);
        if labels.len() > 0 {
            r.push(WireField { name: String::from_str("labels"), value: WireValue::Pairs(labels) });
        }
        proof {
            assert(fields_view(r@) =~= s1 + (if d.labels@.len() > 0 {
                seq![("labels"@, WireModel::Pairs(pairs_of(d.labels@)))]
            } else {
                Seq::empty()
            }));
        }
        let ghost s2 = fields_view(r@);
        if annotations.len() > 0 {
            r.push(WireField { name: String::from_str("annotations"), value: WireValue::Pairs(annotations) });
        }
        proof {
            assert(fields_view(r@) =~= s2 + (if d.annotations@.len() > 0 {
                seq![("annotations"@, WireModel::Pairs(pairs_of(d.annotations@)))]
            } else {
                Seq::empty()
            }));
        }
        let ghost s3 = fields_view(r@);
        let accounts = vault_service_accounts.service_accounts_string();
        if accounts.as_str().unicode_len() > 0 {
            r.push(WireField { name: String::from_str("vault_config"), value: WireValue::VaultConfig(accounts) });
        }
        proof {
            assert(fields_view(r@) =~= s3 + (if rendered(d.vault_service_accounts@).len() > 0 {
                seq![("vault_config"@, WireModel::VaultConfig(rendered(d.vault_service_accounts@)))]
            } else {
                Seq::empty()
            }));
        }
        let ghost s4 = fields_view(r@);
        let ghost ex = extra_fields(extra_view(extra_properties@));
        let mut i: usize = 0;
        let n = extra_properties.len();
        let mut rest = extra_properties;
        proof {
            assert(ex.take(0) =~= Seq::<(Seq<char>, WireModel)>::empty());
            assert(s4 + ex.take(0) =~= s4);
            assert(d.extra_properties@.skip(0) =~= d.extra_properties@);
        }
        while rest.len() > 0
            invariant
                i + rest@.len() == ex.len(),
                n == ex.len(),
                ex == extra_fields(extra_view(d.extra_properties@)),
                rest@ == d.extra_properties@.skip(i as int),
                fields_view(r@) == s4 + ex.take(i as int),
            decreases rest.len(),
        {
            let (name, value) = rest.remove(0);
            let ghost prev = r@;
            proof {
                assert((name, value) == d.extra_properties@[i as int]);
                assert(ex[i as int] == (name@, WireModel::Raw(value)));
            }
            r.push(WireField { name, value: WireValue::Raw(value) });
            proof {
                assert(fields_view(r@) =~= fields_view(prev).push((name@, WireModel::Raw(value))));
                assert(ex.take(i as int + 1) =~= ex.take(i as int).push(ex[i as int]));
                assert(rest@ =~= d.extra_properties@.skip(i as int + 1));
            }
            i = i + 1;
        }
        proof {
            assert(ex.take(i as int) =~= ex);
            assert(s4 + ex == wire_of(d));
        }
        r
    }
}

/// With no labels, no annotations and no account to render, the request
/// object holds the required fields followed by each extra property as a
/// top-level field: no `labels`, `annotations` or `vault_config` section.
/// As the extra names are distinct, no other extra field shares the name of
/// one, so each keeps its value in the JSON object.
pub proof fn lemma_extra_properties_flattened(d: NSDef)
    requires
        d.labels@.len() == 0,
        d.annotations@.len() == 0,
        rendered(d.vault_service_accounts@).len() == 0,
        names_distinct(extra_view(d.extra_properties@)),
    ensures
        wire_of(d) == required_fields(d) + extra_fields(extra_view(d.extra_properties@)),
        forall|i: int| 0 <= i < d.extra_properties@.len() ==>
            wire_of(d)[4 + i] == (d.extra_properties@[i].0@, WireModel::Raw(d.extra_properties@[i].1)),
        forall|i: int, j: int|
            0 <= i < d.extra_properties@.len() && 0 <= j < d.extra_properties@.len() && #[trigger] wire_of(d)[4 + i].0
                == #[trigger] wire_of(d)[4 + j].0 ==> i == j,
{
    let v = extra_view(d.extra_properties@);
    assert forall|i: int, j: int|
        0 <= i < d.extra_properties@.len() && 0 <= j < d.extra_properties@.len() && #[trigger] wire_of(d)[4 + i].0
            == #[trigger] wire_of(d)[4 + j].0 implies i == j by {
        assert(wire_of(d)[4 + i].0 == v[i].0);
        assert(wire_of(d)[4 + j].0 == v[j].0);
    }
    assert(required_fields(d) + Seq::<(Seq<char>, WireModel)>::empty() + Seq::<(Seq<char>, WireModel)>::empty()
        + Seq::<(Seq<char>, WireModel)>::empty() =~= required_fields(d));
}

} // verus!
