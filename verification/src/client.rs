//! The profile record: the client settings of one named connection, with
//! optional credentials and RADIUS metadata, and its mapping to and from the
//! generic document of [`crate::doc`].
use vstd::prelude::*;

use crate::doc;
use crate::doc::{
    doc_pairs_view, doc_seq_view, lookup, DocValue, DocView,
};
use crate::radius::{RadiusClient, RadiusClientView, RadiusGroup, RadiusGroupView};

verus! {

broadcast use vstd::std_specs::vec::group_vec_axioms, vstd::seq::group_seq_axioms, vstd::string::group_string_axioms;

/// The connection settings of one endpoint: URI, TLS checks, CA path.
pub struct InstanceSettings {
    pub uri: Option<String>,
    pub verify_ca: Option<bool>,
    pub verify_hostnames: Option<bool>,
    pub ca_path: Option<String>,
}

/// One named connection profile: a selection key, the default endpoint's
/// settings, further named sub-instances, and optional credential and RADIUS
/// metadata.
pub struct KanidmClientConfig {
    pub name: String,
    pub default: InstanceSettings,
    pub instances: Vec<(String, InstanceSettings)>,
    pub username: Option<String>,
    pub password: Option<String>,
    pub radius_required_groups: Option<Vec<String>>,
    pub radius_groups: Option<Vec<RadiusGroup>>,
    pub radius_clients: Option<Vec<RadiusClient>>,
}

/// The mathematical shape of [`InstanceSettings`].
pub ghost struct InstanceView {
    pub uri: Option<Seq<char>>,
    pub verify_ca: Option<bool>,
    pub verify_hostnames: Option<bool>,
    pub ca_path: Option<Seq<char>>,
}

/// The mathematical shape of [`KanidmClientConfig`].
pub ghost struct ProfileView {
    pub name: Seq<char>,
    pub default: InstanceView,
    pub instances: Seq<(Seq<char>, InstanceView)>,
    pub username: Option<Seq<char>>,
    pub password: Option<Seq<char>>,
    pub radius_required_groups: Option<Seq<Seq<char>>>,
    pub radius_groups: Option<Seq<RadiusGroupView>>,
    pub radius_clients: Option<Seq<RadiusClientView>>,
}

pub open spec fn opt_str_view(o: Option<String>) -> Option<Seq<char>> {
    match o {
        Some(s) => Some(s@),
        None => None,
    }
}

pub open spec fn strs_view(v: Seq<String>) -> Seq<Seq<char>> {
    v.map_values(|s: String| s@)
}

pub open spec fn groups_view(v: Seq<RadiusGroup>) -> Seq<RadiusGroupView> {
    v.map_values(|g: RadiusGroup| g@)
}

pub open spec fn clients_view(v: Seq<RadiusClient>) -> Seq<RadiusClientView> {
    v.map_values(|c: RadiusClient| c@)
}

impl InstanceSettings {
    pub open spec fn view(self) -> InstanceView {
        InstanceView {
            uri: opt_str_view(self.uri),
            verify_ca: self.verify_ca,
            verify_hostnames: self.verify_hostnames,
            ca_path: opt_str_view(self.ca_path),
        }
    }
}

impl KanidmClientConfig {
    pub open spec fn view(self) -> ProfileView {
        ProfileView {
            name: self.name@,
            default: self.default@,
            instances: self.instances@.map_values(
                |pr: (String, InstanceSettings)| (pr.0@, pr.1@),
            ),
            username: opt_str_view(self.username),
            password: opt_str_view(self.password),
            radius_required_groups: match self.radius_required_groups {
                Some(v) => Some(strs_view(v@)),
                None => None,
            },
            radius_groups: match self.radius_groups {
                Some(v) => Some(groups_view(v@)),
                None => None,
            },
            radius_clients: match self.radius_clients {
                Some(v) => Some(clients_view(v@)),
                None => None,
            },
        }
    }
}

// ---------------------------------------------------------------------------
// Record to document
// ---------------------------------------------------------------------------
pub open spec fn opt_str_node(o: Option<Seq<char>>) -> DocView {
    match o {
        Some(s) => DocView::Str(s),
        None => DocView::Null,
    }
}

pub open spec fn opt_bool_node(o: Option<bool>) -> DocView {
    match o {
        Some(b) => DocView::Bool(b),
        None => DocView::Null,
    }
}

pub open spec fn group_node(g: RadiusGroupView) -> DocView {
    DocView::Obj(seq![("spn"@, DocView::Str(g.spn)), ("vlan"@, DocView::Int(g.vlan as int))])
}

pub open spec fn client_node(c: RadiusClientView) -> DocView {
    DocView::Obj(
        seq![
            ("name"@, DocView::Str(c.name)),
            ("ipaddr"@, DocView::Str(c.ipaddr)),
            ("secret"@, DocView::Str(c.secret)),
        ],
    )
}

pub open spec fn str_list_node(v: Seq<Seq<char>>) -> DocView {
    DocView::Arr(v.map_values(|s: Seq<char>| DocView::Str(s)))
}

pub open spec fn group_list_node(v: Seq<RadiusGroupView>) -> DocView {
    DocView::Arr(v.map_values(|g: RadiusGroupView| group_node(g)))
}

pub open spec fn client_list_node(v: Seq<RadiusClientView>) -> DocView {
    DocView::Arr(v.map_values(|c: RadiusClientView| client_node(c)))
}

pub open spec fn instance_node(i: InstanceView) -> DocView {
    DocView::Obj(
        seq![
            ("uri"@, opt_str_node(i.uri)),
            ("verify_ca"@, opt_bool_node(i.verify_ca)),
            ("verify_hostnames"@, opt_bool_node(i.verify_hostnames)),
            ("ca_path"@, opt_str_node(i.ca_path)),
        ],
    )
}

/// The nine field entries every profile document carries, in a fixed order.
pub open spec fn fixed_pairs(p: ProfileView) -> Seq<(Seq<char>, DocView)> {
    seq![
        ("uri"@, opt_str_node(p.default.uri)),
        ("verify_ca"@, opt_bool_node(p.default.verify_ca)),
        ("verify_hostnames"@, opt_bool_node(p.default.verify_hostnames)),
        ("ca_path"@, opt_str_node(p.default.ca_path)),
        ("username"@, opt_str_node(p.username)),
        ("password"@, opt_str_node(p.password)),
        (
            "radius_required_groups"@,
            match p.radius_required_groups {
                Some(v) => str_list_node(v),
                None => DocView::Null,
            },
        ),
        (
            "radius_groups"@,
            match p.radius_groups {
                Some(v) => group_list_node(v),
                None => DocView::Null,
            },
        ),
        (
            "radius_clients"@,
            match p.radius_clients {
                Some(v) => client_list_node(v),
                None => DocView::Null,
            },
        ),
    ]
}

pub open spec fn instance_pairs(is: Seq<(Seq<char>, InstanceView)>) -> Seq<(Seq<char>, DocView)> {
    is.map_values(|pr: (Seq<char>, InstanceView)| (pr.0, instance_node(pr.1)))
}

/// The generic document a profile is flattened into: its settings and
/// metadata under their field names, the sub-instances after them under
/// their own names. The selection key `name` is left out, as it is when the
/// record is serialized.
pub open spec fn doc_of(p: ProfileView) -> DocView {
    DocView::Obj(fixed_pairs(p) + instance_pairs(p.instances))
}

// ---------------------------------------------------------------------------
// Document to record
// ---------------------------------------------------------------------------
/// The field names a profile document reserves; every other key names a
/// sub-instance.
pub open spec fn fixed_key(k: Seq<char>) -> bool {
    ||| k == "uri"@
    ||| k == "verify_ca"@
    ||| k == "verify_hostnames"@
    ||| k == "ca_path"@
    ||| k == "username"@
    ||| k == "password"@
    ||| k == "radius_required_groups"@
    ||| k == "radius_groups"@
    ||| k == "radius_clients"@
    ||| k == "name"@
}

/// An optional text field: absent or null stands for `None`; any value other
/// than text is a shape error.
pub open spec fn opt_str_field(pairs: Seq<(Seq<char>, DocView)>, key: Seq<char>) -> Option<
    Option<Seq<char>>,
> {
    match lookup(pairs, key) {
        None => Some(None),
        Some(DocView::Null) => Some(None),
        Some(DocView::Str(s)) => Some(Some(s)),
        Some(_) => None,
    }
}

/// An optional boolean field, read as [`opt_str_field`] is.
pub open spec fn opt_bool_field(pairs: Seq<(Seq<char>, DocView)>, key: Seq<char>) -> Option<
    Option<bool>,
> {
    match lookup(pairs, key) {
        None => Some(None),
        Some(DocView::Null) => Some(None),
        Some(DocView::Bool(b)) => Some(Some(b)),
        Some(_) => None,
    }
}

/// An endpoint read back from a document node; keys other than the four
/// settings are ignored, as a TOML decoder of this schema ignores them.
pub open spec fn instance_of_node(d: DocView) -> Option<InstanceView> {
    match d {
        DocView::Obj(pairs) => {
            if opt_str_field(pairs, "uri"@) is Some && opt_bool_field(pairs, "verify_ca"@) is Some
                && opt_bool_field(pairs, "verify_hostnames"@) is Some && opt_str_field(
                pairs,
                "ca_path"@,
            ) is Some {
                Some(
                    InstanceView {
                        uri: opt_str_field(pairs, "uri"@)->0,
                        verify_ca: opt_bool_field(pairs, "verify_ca"@)->0,
                        verify_hostnames: opt_bool_field(pairs, "verify_hostnames"@)->0,
                        ca_path: opt_str_field(pairs, "ca_path"@)->0,
                    },
                )
            } else {
                None
            }
        },
        _ => None,
    }
}

pub open spec fn group_of_node(d: DocView) -> Option<RadiusGroupView> {
    match d {
        DocView::Obj(pairs) => match (lookup(pairs, "spn"@), lookup(pairs, "vlan"@)) {
            (Some(DocView::Str(s)), Some(DocView::Int(v))) => if 0 <= v <= u16::MAX {
                Some(RadiusGroupView { spn: s, vlan: v as u16 })
            } else {
                None
            },
            _ => None,
        },
        _ => None,
    }
}

pub open spec fn client_of_node(d: DocView) -> Option<RadiusClientView> {
    match d {
        DocView::Obj(pairs) => match (
            lookup(pairs, "name"@),
            lookup(pairs, "ipaddr"@),
            lookup(pairs, "secret"@),
        ) {
            (Some(DocView::Str(n)), Some(DocView::Str(i)), Some(DocView::Str(s))) => Some(
                RadiusClientView { name: n, ipaddr: i, secret: s },
            ),
            _ => None,
        },
        _ => None,
    }
}

pub open spec fn strs_of_nodes(items: Seq<DocView>) -> Option<Seq<Seq<char>>>
    decreases items.len(),
{
    if items.len() == 0 {
        Some(Seq::<Seq<char>>::empty())
    } else {
        match (items[0], strs_of_nodes(items.skip(1))) {
            (DocView::Str(s), Some(rest)) => Some(seq![s] + rest),
            _ => None,
        }
    }
}

pub open spec fn groups_of_nodes(items: Seq<DocView>) -> Option<Seq<RadiusGroupView>>
    decreases items.len(),
{
    if items.len() == 0 {
        Some(Seq::<RadiusGroupView>::empty())
    } else {
        match (group_of_node(items[0]), groups_of_nodes(items.skip(1))) {
            (Some(g), Some(rest)) => Some(seq![g] + rest),
            _ => None,
        }
    }
}

pub open spec fn clients_of_nodes(items: Seq<DocView>) -> Option<Seq<RadiusClientView>>
    decreases items.len(),
{
    if items.len() == 0 {
        Some(Seq::<RadiusClientView>::empty())
    } else {
        match (client_of_node(items[0]), clients_of_nodes(items.skip(1))) {
            (Some(c), Some(rest)) => Some(seq![c] + rest),
            _ => None,
        }
    }
}

pub open spec fn opt_strs_field(pairs: Seq<(Seq<char>, DocView)>, key: Seq<char>) -> Option<
    Option<Seq<Seq<char>>>,
> {
    match lookup(pairs, key) {
        None => Some(None),
        Some(DocView::Null) => Some(None),
        Some(DocView::Arr(items)) => match strs_of_nodes(items) {
            Some(v) => Some(Some(v)),
            None => None,
        },
        Some(_) => None,
    }
}

pub open spec fn opt_groups_field(pairs: Seq<(Seq<char>, DocView)>, key: Seq<char>) -> Option<
    Option<Seq<RadiusGroupView>>,
> {
    match lookup(pairs, key) {
        None => Some(None),
        Some(DocView::Null) => Some(None),
        Some(DocView::Arr(items)) => match groups_of_nodes(items) {
            Some(v) => Some(Some(v)),
            None => None,
        },
        Some(_) => None,
    }
}

pub open spec fn opt_clients_field(pairs: Seq<(Seq<char>, DocView)>, key: Seq<char>) -> Option<
    Option<Seq<RadiusClientView>>,
> {
    match lookup(pairs, key) {
        None => Some(None),
        Some(DocView::Null) => Some(None),
        Some(DocView::Arr(items)) => match clients_of_nodes(items) {
            Some(v) => Some(Some(v)),
            None => None,
        },
        Some(_) => None,
    }
}

/// The pairs that do not carry a reserved field name, in order: the
/// sub-instance entries.
pub open spec fn extra_pairs(pairs: Seq<(Seq<char>, DocView)>) -> Seq<(Seq<char>, DocView)>
    decreases pairs.len(),
{
    if pairs.len() == 0 {
        Seq::<(Seq<char>, DocView)>::empty()
    } else if fixed_key(pairs[0].0) {
        extra_pairs(pairs.skip(1))
    } else {
        seq![pairs[0]] + extra_pairs(pairs.skip(1))
    }
}

pub open spec fn instances_of_pairs(pairs: Seq<(Seq<char>, DocView)>) -> Option<
    Seq<(Seq<char>, InstanceView)>,
>
    decreases pairs.len(),
{
    if pairs.len() == 0 {
        Some(Seq::<(Seq<char>, InstanceView)>::empty())
    } else {
        match (instance_of_node(pairs[0].1), instances_of_pairs(pairs.skip(1))) {
            (Some(iv), Some(rest)) => Some(seq![(pairs[0].0, iv)] + rest),
            _ => None,
        }
    }
}

/// The profile's name: the document's own `name` entry when there is one,
/// the fallback when there is none; a non-text `name` is a shape error.
pub open spec fn name_field(pairs: Seq<(Seq<char>, DocView)>, fallback: Seq<char>) -> Option<
    Seq<char>,
> {
    match lookup(pairs, "name"@) {
        None => Some(fallback),
        Some(DocView::Str(s)) => Some(s),
        Some(_) => None,
    }
}

/// A profile read back from a generic document. Every reserved field must
/// have its shape; every other key must carry an endpoint table. `None` is
/// the shape error.
pub open spec fn record_of_doc(d: DocView, fallback_name: Seq<char>) -> Option<ProfileView> {
    match d {
        DocView::Obj(pairs) => if name_field(pairs, fallback_name) is Some && opt_str_field(
            pairs,
            "uri"@,
        ) is Some && opt_bool_field(pairs, "verify_ca"@) is Some && opt_bool_field(
            pairs,
            "verify_hostnames"@,
        ) is Some && opt_str_field(pairs, "ca_path"@) is Some && opt_str_field(
            pairs,
            "username"@,
        ) is Some && opt_str_field(pairs, "password"@) is Some && opt_strs_field(
            pairs,
            "radius_required_groups"@,
        ) is Some && opt_groups_field(pairs, "radius_groups"@) is Some && opt_clients_field(
            pairs,
            "radius_clients"@,
        ) is Some && instances_of_pairs(extra_pairs(pairs)) is Some {
            Some(
                ProfileView {
                    name: name_field(pairs, fallback_name)->0,
                    default: InstanceView {
                        uri: opt_str_field(pairs, "uri"@)->0,
                        verify_ca: opt_bool_field(pairs, "verify_ca"@)->0,
                        verify_hostnames: opt_bool_field(pairs, "verify_hostnames"@)->0,
                        ca_path: opt_str_field(pairs, "ca_path"@)->0,
                    },
                    instances: instances_of_pairs(extra_pairs(pairs))->0,
                    username: opt_str_field(pairs, "username"@)->0,
                    password: opt_str_field(pairs, "password"@)->0,
                    radius_required_groups: opt_strs_field(pairs, "radius_required_groups"@)->0,
                    radius_groups: opt_groups_field(pairs, "radius_groups"@)->0,
                    radius_clients: opt_clients_field(pairs, "radius_clients"@)->0,
                },
            )
        } else {
            None
        },
        _ => None,
    }
}

/// A profile is well formed when no sub-instance is named like a reserved
/// field; flattening such a profile would lose the instance.
pub open spec fn wf_profile(p: ProfileView) -> bool {
    forall|i: int| 0 <= i < p.instances.len() ==> !fixed_key((#[trigger] p.instances[i]).0)
}

/// No-match lookups fail.
proof fn lemma_lookup_none(pairs: Seq<(Seq<char>, DocView)>, key: Seq<char>)
    requires
        forall|t: int| 0 <= t < pairs.len() ==> (#[trigger] pairs[t].0) != key,
    ensures
        lookup(pairs, key) is None,
{
    crate::doc::lemma_key_index_lookup(pairs, key);
    match crate::doc::key_index(pairs, key) {
        Some(i) => {
            assert(pairs[i].0 != key);
        },
        None => {},
    }
}

/// First-match lookups return the value at the first matching index.
proof fn lemma_lookup_at(pairs: Seq<(Seq<char>, DocView)>, key: Seq<char>, j: int)
    requires
        0 <= j < pairs.len(),
        pairs[j].0 == key,
        forall|t: int| 0 <= t < j ==> (#[trigger] pairs[t].0) != key,
    ensures
        lookup(pairs, key) == Some(pairs[j].1),
{
    crate::doc::lemma_key_index_first(pairs, key, j);
    crate::doc::lemma_key_index_lookup(pairs, key);
}

proof fn lemma_reveal_field_names()
    ensures
        "uri"@ != "verify_ca"@ && "uri"@ != "verify_hostnames"@ && "uri"@ != "ca_path"@ && "uri"@
            != "username"@ && "uri"@ != "password"@ && "uri"@ != "radius_required_groups"@ && "uri"@
            != "radius_groups"@ && "uri"@ != "radius_clients"@ && "uri"@ != "name"@,
        "verify_ca"@ != "verify_hostnames"@ && "verify_ca"@ != "ca_path"@ && "verify_ca"@
            != "username"@ && "verify_ca"@ != "password"@ && "verify_ca"@
            != "radius_required_groups"@ && "verify_ca"@ != "radius_groups"@ && "verify_ca"@
            != "radius_clients"@ && "verify_ca"@ != "name"@,
        "verify_hostnames"@ != "ca_path"@ && "verify_hostnames"@ != "username"@
            && "verify_hostnames"@ != "password"@ && "verify_hostnames"@
            != "radius_required_groups"@ && "verify_hostnames"@ != "radius_groups"@
            && "verify_hostnames"@ != "radius_clients"@ && "verify_hostnames"@ != "name"@,
        "ca_path"@ != "username"@ && "ca_path"@ != "password"@ && "ca_path"@
            != "radius_required_groups"@ && "ca_path"@ != "radius_groups"@ && "ca_path"@
            != "radius_clients"@ && "ca_path"@ != "name"@,
        "username"@ != "password"@ && "username"@ != "radius_required_groups"@ && "username"@
            != "radius_groups"@ && "username"@ != "radius_clients"@ && "username"@ != "name"@,
        "password"@ != "radius_required_groups"@ && "password"@ != "radius_groups"@ && "password"@
            != "radius_clients"@ && "password"@ != "name"@,
        "radius_required_groups"@ != "radius_groups"@ && "radius_required_groups"@
            != "radius_clients"@ && "radius_required_groups"@ != "name"@,
        "radius_groups"@ != "radius_clients"@ && "radius_groups"@ != "name"@,
        "radius_clients"@ != "name"@,
        "spn"@ != "vlan"@,
        "name"@ != "ipaddr"@ && "name"@ != "secret"@ && "ipaddr"@ != "secret"@,
{
    reveal_strlit("uri");
    reveal_strlit("verify_ca");
    reveal_strlit("verify_hostnames");
    reveal_strlit("ca_path");
    reveal_strlit("username");
    reveal_strlit("password");
    reveal_strlit("radius_required_groups");
    reveal_strlit("radius_groups");
    reveal_strlit("radius_clients");
    reveal_strlit("name");
    reveal_strlit("spn");
    reveal_strlit("vlan");
    reveal_strlit("ipaddr");
    reveal_strlit("secret");
    assert("uri"@.len() == 3);
    assert("verify_ca"@.len() == 9);
    assert("verify_hostnames"@.len() == 16);
    assert("ca_path"@.len() == 7);
    assert("username"@.len() == 8);
    assert("password"@.len() == 8);
    assert("radius_required_groups"@.len() == 22);
    assert("radius_groups"@.len() == 13);
    assert("radius_clients"@.len() == 14);
    assert("name"@.len() == 4);
    assert("spn"@.len() == 3);
    assert("vlan"@.len() == 4);
    assert("ipaddr"@.len() == 6);
    assert("secret"@.len() == 6);
    assert("username"@[0] == 'u' && "password"@[0] == 'p');
    assert("ipaddr"@[0] == 'i' && "secret"@[0] == 's');
}

proof fn lemma_instance_node_round(iv: InstanceView)
    ensures
        instance_of_node(instance_node(iv)) == Some(iv),
{
    lemma_reveal_field_names();
    let pairs = seq![
        ("uri"@, opt_str_node(iv.uri)),
        ("verify_ca"@, opt_bool_node(iv.verify_ca)),
        ("verify_hostnames"@, opt_bool_node(iv.verify_hostnames)),
        ("ca_path"@, opt_str_node(iv.ca_path)),
    ];
    lemma_lookup_at(pairs, "uri"@, 0);
    lemma_lookup_at(pairs, "verify_ca"@, 1);
    lemma_lookup_at(pairs, "verify_hostnames"@, 2);
    lemma_lookup_at(pairs, "ca_path"@, 3);
}

proof fn lemma_group_node_round(g: RadiusGroupView)
    ensures
        group_of_node(group_node(g)) == Some(g),
{
    lemma_reveal_field_names();
    let pairs = seq![("spn"@, DocView::Str(g.spn)), ("vlan"@, DocView::Int(g.vlan as int))];
    lemma_lookup_at(pairs, "spn"@, 0);
    lemma_lookup_at(pairs, "vlan"@, 1);
}

proof fn lemma_client_node_round(c: RadiusClientView)
    ensures
        client_of_node(client_node(c)) == Some(c),
{
    lemma_reveal_field_names();
    let pairs = seq![
        ("name"@, DocView::Str(c.name)),
        ("ipaddr"@, DocView::Str(c.ipaddr)),
        ("secret"@, DocView::Str(c.secret)),
    ];
    lemma_lookup_at(pairs, "name"@, 0);
    lemma_lookup_at(pairs, "ipaddr"@, 1);
    lemma_lookup_at(pairs, "secret"@, 2);
}

proof fn lemma_strs_round(v: Seq<Seq<char>>)
    ensures
        strs_of_nodes(v.map_values(|s: Seq<char>| DocView::Str(s))) == Some(v),
    decreases v.len(),
{
    let nodes = v.map_values(|s: Seq<char>| DocView::Str(s));
    if v.len() > 0 {
        lemma_strs_round(v.skip(1));
        assert(nodes.skip(1) =~= v.skip(1).map_values(|s: Seq<char>| DocView::Str(s)));
        assert(seq![v[0]] + v.skip(1) =~= v);
    } else {
        assert(nodes.len() == 0);
    }
}

proof fn lemma_groups_round(v: Seq<RadiusGroupView>)
    ensures
        groups_of_nodes(v.map_values(|g: RadiusGroupView| group_node(g))) == Some(v),
    decreases v.len(),
{
    let nodes = v.map_values(|g: RadiusGroupView| group_node(g));
    if v.len() > 0 {
        lemma_group_node_round(v[0]);
        lemma_groups_round(v.skip(1));
        assert(nodes.skip(1) =~= v.skip(1).map_values(|g: RadiusGroupView| group_node(g)));
        assert(seq![v[0]] + v.skip(1) =~= v);
    } else {
        assert(nodes.len() == 0);
    }
}

proof fn lemma_clients_round(v: Seq<RadiusClientView>)
    ensures
        clients_of_nodes(v.map_values(|c: RadiusClientView| client_node(c))) == Some(v),
    decreases v.len(),
{
    let nodes = v.map_values(|c: RadiusClientView| client_node(c));
    if v.len() > 0 {
        lemma_client_node_round(v[0]);
        lemma_clients_round(v.skip(1));
        assert(nodes.skip(1) =~= v.skip(1).map_values(|c: RadiusClientView| client_node(c)));
        assert(seq![v[0]] + v.skip(1) =~= v);
    } else {
        assert(nodes.len() == 0);
    }
}

proof fn lemma_extra_pairs_skips_fixed(pairs: Seq<(Seq<char>, DocView)>, n: int)
    requires
        0 <= n <= pairs.len(),
        forall|t: int| 0 <= t < n ==> fixed_key((#[trigger] pairs[t]).0),
    ensures
        extra_pairs(pairs) == extra_pairs(pairs.skip(n)),
    decreases n,
{
    if n > 0 {
        assert(extra_pairs(pairs) == extra_pairs(pairs.skip(1)));
        assert forall|t: int| 0 <= t < n - 1 implies fixed_key(
            (#[trigger] pairs.skip(1)[t]).0,
        ) by {
            assert(pairs.skip(1)[t] == pairs[t + 1]);
        }
        lemma_extra_pairs_skips_fixed(pairs.skip(1), n - 1);
        assert(pairs.skip(1).skip(n - 1) =~= pairs.skip(n));
    } else {
        assert(pairs.skip(0) =~= pairs);
    }
}

proof fn lemma_extra_pairs_none_fixed(pairs: Seq<(Seq<char>, DocView)>)
    requires
        forall|t: int| 0 <= t < pairs.len() ==> !fixed_key((#[trigger] pairs[t]).0),
    ensures
        extra_pairs(pairs) == pairs,
    decreases pairs.len(),
{
    if pairs.len() > 0 {
        lemma_extra_pairs_none_fixed(pairs.skip(1));
        assert(seq![pairs[0]] + pairs.skip(1) =~= pairs);
    } else {
        assert(extra_pairs(pairs) =~= pairs);
    }
}

proof fn lemma_instances_round(is: Seq<(Seq<char>, InstanceView)>)
    ensures
        instances_of_pairs(instance_pairs(is)) == Some(is),
    decreases is.len(),
{
    let pairs = instance_pairs(is);
    if is.len() > 0 {
        lemma_instance_node_round(is[0].1);
        lemma_instances_round(is.skip(1));
        assert(pairs.skip(1) =~= instance_pairs(is.skip(1)));
        assert(seq![(is[0].0, is[0].1)] + is.skip(1) =~= is);
        assert((is[0].0, is[0].1) == is[0]);
    } else {
        assert(pairs.len() == 0);
    }
}

/// Flattening a well-formed profile into its generic document and reading
/// the document back yields the profile again, its name supplied separately:
/// the document itself does not carry the selection key.
pub proof fn lemma_doc_round_trip(p: ProfileView)
    requires
        wf_profile(p),
    ensures
        record_of_doc(doc_of(p), p.name) == Some(p),
{
    lemma_reveal_field_names();
    let fp = fixed_pairs(p);
    let ip = instance_pairs(p.instances);
    let pairs = fp + ip;
    assert(fp.len() == 9);
    assert forall|t: int| 0 <= t < ip.len() implies !fixed_key((#[trigger] ip[t]).0) by {
        assert(ip[t].0 == p.instances[t].0);
    }
    assert forall|t: int| 9 <= t < pairs.len() implies (#[trigger] pairs[t]).0 == ip[t - 9].0 by {
        assert(pairs[t] == ip[t - 9]);
    }
    lemma_lookup_at(pairs, "uri"@, 0);
    lemma_lookup_at(pairs, "verify_ca"@, 1);
    lemma_lookup_at(pairs, "verify_hostnames"@, 2);
    lemma_lookup_at(pairs, "ca_path"@, 3);
    lemma_lookup_at(pairs, "username"@, 4);
    lemma_lookup_at(pairs, "password"@, 5);
    lemma_lookup_at(pairs, "radius_required_groups"@, 6);
    lemma_lookup_at(pairs, "radius_groups"@, 7);
    lemma_lookup_at(pairs, "radius_clients"@, 8);
    assert forall|t: int| 0 <= t < pairs.len() implies (#[trigger] pairs[t]).0 != "name"@ by {
        if t >= 9 {
            assert(!fixed_key(ip[t - 9].0));
        }
    }
    lemma_lookup_none(pairs, "name"@);
    assert(name_field(pairs, p.name) == Some(p.name));
    match p.radius_required_groups {
        Some(v) => {
            lemma_strs_round(v);
            assert(opt_strs_field(pairs, "radius_required_groups"@) == Some(Some(v)));
        },
        None => {},
    }
    match p.radius_groups {
        Some(v) => {
            lemma_groups_round(v);
            assert(opt_groups_field(pairs, "radius_groups"@) == Some(Some(v)));
        },
        None => {},
    }
    match p.radius_clients {
        Some(v) => {
            lemma_clients_round(v);
            assert(opt_clients_field(pairs, "radius_clients"@) == Some(Some(v)));
        },
        None => {},
    }
    assert forall|t: int| 0 <= t < 9 implies fixed_key((#[trigger] pairs[t]).0) by {}
    lemma_extra_pairs_skips_fixed(pairs, 9);
    assert(pairs.skip(9) =~= ip);
    lemma_extra_pairs_none_fixed(ip);
    lemma_instances_round(p.instances);
    assert(record_of_doc(doc_of(p), p.name) == Some(p));
}


// ---------------------------------------------------------------------------
// Executable conversions
// ---------------------------------------------------------------------------
fn opt_str_node_exec(o: &Option<String>) -> (r: DocValue)
    ensures
        r@ == opt_str_node(opt_str_view(*o)),
{
    match o {
        Some(s) => DocValue::Str(s.clone()),
        None => DocValue::Null,
    }
}

fn opt_bool_node_exec(o: &Option<bool>) -> (r: DocValue)
    ensures
        r@ == opt_bool_node(*o),
{
    match o {
        Some(b) => DocValue::Bool(*b),
        None => DocValue::Null,
    }
}

fn instance_node_exec(ins: &InstanceSettings) -> (r: DocValue)
    ensures
        r@ == instance_node(ins@),
{
    let mut pairs: Vec<(String, DocValue)> = Vec::new();
    pairs.push(("uri".to_owned(), opt_str_node_exec(&ins.uri)));
    pairs.push(("verify_ca".to_owned(), opt_bool_node_exec(&ins.verify_ca)));
    pairs.push(("verify_hostnames".to_owned(), opt_bool_node_exec(&ins.verify_hostnames)));
    pairs.push(("ca_path".to_owned(), opt_str_node_exec(&ins.ca_path)));
    proof {
        doc::lemma_doc_pairs_view(pairs@);
        let target = seq![
            ("uri"@, opt_str_node(ins@.uri)),
            ("verify_ca"@, opt_bool_node(ins@.verify_ca)),
            ("verify_hostnames"@, opt_bool_node(ins@.verify_hostnames)),
            ("ca_path"@, opt_str_node(ins@.ca_path)),
        ];
        assert(doc_pairs_view(pairs@) =~= target);
    }
    DocValue::Obj(pairs)
}

fn group_node_exec(g: &RadiusGroup) -> (r: DocValue)
    ensures
        r@ == group_node(g@),
{
    let mut pairs: Vec<(String, DocValue)> = Vec::new();
    pairs.push(("spn".to_owned(), DocValue::Str(g.spn.clone())));
    pairs.push(("vlan".to_owned(), DocValue::Int(g.vlan as i64)));
    proof {
        doc::lemma_doc_pairs_view(pairs@);
        let target = seq![("spn"@, DocView::Str(g@.spn)), ("vlan"@, DocView::Int(g@.vlan as int))];
        assert(doc_pairs_view(pairs@) =~= target);
    }
    DocValue::Obj(pairs)
}

fn client_node_exec(c: &RadiusClient) -> (r: DocValue)
    ensures
        r@ == client_node(c@),
{
    let mut pairs: Vec<(String, DocValue)> = Vec::new();
    pairs.push(("name".to_owned(), DocValue::Str(c.name.clone())));
    pairs.push(("ipaddr".to_owned(), DocValue::Str(c.ipaddr.clone())));
    pairs.push(("secret".to_owned(), DocValue::Str(c.secret.clone())));
    proof {
        doc::lemma_doc_pairs_view(pairs@);
        let target = seq![
            ("name"@, DocView::Str(c@.name)),
            ("ipaddr"@, DocView::Str(c@.ipaddr)),
            ("secret"@, DocView::Str(c@.secret)),
        ];
        assert(doc_pairs_view(pairs@) =~= target);
    }
    DocValue::Obj(pairs)
}

fn strs_node_exec(v: &Vec<String>) -> (r: DocValue)
    ensures
        r@ == str_list_node(strs_view(v@)),
{
    let mut items: Vec<DocValue> = Vec::new();
    let mut i: usize = 0;
    while i < v.len()
        invariant
            i <= v@.len(),
            items@.len() == i,
            forall|k: int| 0 <= k < i ==> (#[trigger] items@[k])@ == DocView::Str(v@[k]@),
        decreases v@.len() - i,
    {
        items.push(DocValue::Str(v[i].clone()));
        i = i + 1;
    }
    proof {
        doc::lemma_doc_seq_view(items@);
        assert(doc_seq_view(items@) =~= strs_view(v@).map_values(|s: Seq<char>| DocView::Str(s)));
    }
    DocValue::Arr(items)
}

fn groups_node_exec(v: &Vec<RadiusGroup>) -> (r: DocValue)
    ensures
        r@ == group_list_node(groups_view(v@)),
{
    let mut items: Vec<DocValue> = Vec::new();
    let mut i: usize = 0;
    while i < v.len()
        invariant
            i <= v@.len(),
            items@.len() == i,
            forall|k: int| 0 <= k < i ==> (#[trigger] items@[k])@ == group_node(v@[k]@),
        decreases v@.len() - i,
    {
        items.push(group_node_exec(&v[i]));
        i = i + 1;
    }
    proof {
        doc::lemma_doc_seq_view(items@);
        assert(doc_seq_view(items@) =~= groups_view(v@).map_values(
            |g: RadiusGroupView| group_node(g),
        ));
    }
    DocValue::Arr(items)
}

fn clients_node_exec(v: &Vec<RadiusClient>) -> (r: DocValue)
    ensures
        r@ == client_list_node(clients_view(v@)),
{
    let mut items: Vec<DocValue> = Vec::new();
    let mut i: usize = 0;
    while i < v.len()
        invariant
            i <= v@.len(),
            items@.len() == i,
            forall|k: int| 0 <= k < i ==> (#[trigger] items@[k])@ == client_node(v@[k]@),
        decreases v@.len() - i,
    {
        items.push(client_node_exec(&v[i]));
        i = i + 1;
    }
    proof {
        doc::lemma_doc_seq_view(items@);
        assert(doc_seq_view(items@) =~= clients_view(v@).map_values(
            |c: RadiusClientView| client_node(c),
        ));
    }
    DocValue::Arr(items)
}

impl KanidmClientConfig {
    /// Flattens this profile into the generic document used for field paths;
    /// the selection key `name` is left out.
    #[verifier::loop_isolation(false)]
    pub fn to_document(&self) -> (r: DocValue)
        ensures
            r@ == doc_of(self@),
    {
        let mut pairs: Vec<(String, DocValue)> = Vec::new();
        pairs.push(("uri".to_owned(), opt_str_node_exec(&self.default.uri)));
        pairs.push(("verify_ca".to_owned(), opt_bool_node_exec(&self.default.verify_ca)));
        pairs.push(
            ("verify_hostnames".to_owned(), opt_bool_node_exec(&self.default.verify_hostnames)),
        );
        pairs.push(("ca_path".to_owned(), opt_str_node_exec(&self.default.ca_path)));
        pairs.push(("username".to_owned(), opt_str_node_exec(&self.username)));
        pairs.push(("password".to_owned(), opt_str_node_exec(&self.password)));
        let rrg = match &self.radius_required_groups {
            Some(v) => strs_node_exec(v),
            None => DocValue::Null,
        };
        pairs.push(("radius_required_groups".to_owned(), rrg));
        let rg = match &self.radius_groups {
            Some(v) => groups_node_exec(v),
            None => DocValue::Null,
        };
        pairs.push(("radius_groups".to_owned(), rg));
        let rc = match &self.radius_clients {
            Some(v) => clients_node_exec(v),
            None => DocValue::Null,
        };
        pairs.push(("radius_clients".to_owned(), rc));
        let ghost fp = fixed_pairs(self@);
        proof {
            doc::lemma_doc_pairs_view(pairs@);
            assert forall|k: int| 0 <= k < 9 implies ((#[trigger] pairs@[k]).0@, pairs@[k].1@)
                == fp[k] by {}
        }
        let mut i: usize = 0;
        while i < self.instances.len()
            invariant
                i <= self.instances@.len(),
                pairs@.len() == 9 + i,
                forall|k: int| 0 <= k < 9 ==> ((#[trigger] pairs@[k]).0@, pairs@[k].1@) == fp[k],
                forall|k: int| 0 <= k < i ==> ((#[trigger] pairs@[9 + k]).0@, pairs@[9 + k].1@)
                    == (self.instances@[k].0@, instance_node(self.instances@[k].1@)),
            decreases self.instances@.len() - i,
        {
            let name = self.instances[i].0.clone();
            let node = instance_node_exec(&self.instances[i].1);
            pairs.push((name, node));
            i = i + 1;
        }
        proof {
            doc::lemma_doc_pairs_view(pairs@);
            let target = fp + instance_pairs(self@.instances);
            assert(self@.instances.len() == self.instances@.len());
            assert forall|k: int| 0 <= k < pairs@.len() implies #[trigger] doc_pairs_view(
                pairs@,
            )[k] == target[k] by {
                if k >= 9 {
                    assert(pairs@[9 + (k - 9)] == pairs@[k]);
                    assert(instance_pairs(self@.instances)[k - 9] == (
                        self@.instances[k - 9].0,
                        instance_node(self@.instances[k - 9].1),
                    ));
                    assert(self@.instances[k - 9] == (
                        self.instances@[k - 9].0@,
                        self.instances@[k - 9].1@,
                    ));
                }
            }
            assert(doc_pairs_view(pairs@) =~= target);
        }
        DocValue::Obj(pairs)
    }
}

pub(crate) fn lookup_exec<'a>(pairs: &'a Vec<(String, DocValue)>, key: &str) -> (r: Option<&'a DocValue>)
    ensures
        match lookup(doc_pairs_view(pairs@), key@) {
            Some(v) => r matches Some(x) && x@ == v,
            None => r is None,
        },
{
    let ghost pv = doc_pairs_view(pairs@);
    proof {
        doc::lemma_doc_pairs_view(pairs@);
    }
    let mut j: usize = 0;
    while j < pairs.len()
        invariant
            j <= pairs@.len(),
            pv == doc_pairs_view(pairs@),
            pv.len() == pairs@.len(),
            forall|t: int| 0 <= t < pairs@.len() ==> #[trigger] pv[t] == (
                pairs@[t].0@,
                pairs@[t].1@,
            ),
            forall|t: int| 0 <= t < j ==> (#[trigger] pv[t].0) != key@,
        decreases pairs@.len() - j,
    {
        if doc::str_eq(pairs[j].0.as_str(), key) {
            proof {
                lemma_lookup_at(pv, key@, j as int);
            }
            return Some(&pairs[j].1);
        }
        j = j + 1;
    }
    proof {
        lemma_lookup_none(pv, key@);
    }
    None
}

fn opt_str_field_exec(pairs: &Vec<(String, DocValue)>, key: &str) -> (r: Option<Option<String>>)
    ensures
        match opt_str_field(doc_pairs_view(pairs@), key@) {
            Some(o) => r matches Some(ro) && opt_str_view(ro) == o,
            None => r is None,
        },
{
    match lookup_exec(pairs, key) {
        None => Some(None),
        Some(DocValue::Null) => Some(None),
        Some(DocValue::Str(s)) => Some(Some(s.clone())),
        Some(_) => None,
    }
}

fn opt_bool_field_exec(pairs: &Vec<(String, DocValue)>, key: &str) -> (r: Option<Option<bool>>)
    ensures
        match opt_bool_field(doc_pairs_view(pairs@), key@) {
            Some(o) => r == Some(o),
            None => r is None,
        },
{
    match lookup_exec(pairs, key) {
        None => Some(None),
        Some(DocValue::Null) => Some(None),
        Some(DocValue::Bool(b)) => Some(Some(*b)),
        Some(_) => None,
    }
}

fn instance_of_node_exec(d: &DocValue) -> (r: Option<InstanceSettings>)
    ensures
        match instance_of_node(d@) {
            Some(iv) => r matches Some(ins) && ins@ == iv,
            None => r is None,
        },
{
    match d {
        DocValue::Obj(pairs) => {
            let uri = opt_str_field_exec(pairs, "uri");
            let verify_ca = opt_bool_field_exec(pairs, "verify_ca");
            let verify_hostnames = opt_bool_field_exec(pairs, "verify_hostnames");
            let ca_path = opt_str_field_exec(pairs, "ca_path");
            match (uri, verify_ca, verify_hostnames, ca_path) {
                (Some(uri), Some(verify_ca), Some(verify_hostnames), Some(ca_path)) => Some(
                    InstanceSettings { uri, verify_ca, verify_hostnames, ca_path },
                ),
                _ => None,
            }
        },
        _ => None,
    }
}

fn group_of_node_exec(d: &DocValue) -> (r: Option<RadiusGroup>)
    ensures
        match group_of_node(d@) {
            Some(g) => r matches Some(rg) && rg@ == g,
            None => r is None,
        },
{
    match d {
        DocValue::Obj(pairs) => {
            let spn = lookup_exec(pairs, "spn");
            let vlan = lookup_exec(pairs, "vlan");
            match (spn, vlan) {
                (Some(DocValue::Str(s)), Some(DocValue::Int(v))) => {
                    if 0 <= *v && *v <= 65535 {
                        Some(RadiusGroup { spn: s.clone(), vlan: *v as u16 })
                    } else {
                        None
                    }
                },
                _ => None,
            }
        },
        _ => None,
    }
}

fn client_of_node_exec(d: &DocValue) -> (r: Option<RadiusClient>)
    ensures
        match client_of_node(d@) {
            Some(c) => r matches Some(rc) && rc@ == c,
            None => r is None,
        },
{
    match d {
        DocValue::Obj(pairs) => {
            let name = lookup_exec(pairs, "name");
            let ipaddr = lookup_exec(pairs, "ipaddr");
            let secret = lookup_exec(pairs, "secret");
            match (name, ipaddr, secret) {
                (
                    Some(DocValue::Str(n)),
                    Some(DocValue::Str(i)),
                    Some(DocValue::Str(s)),
                ) => Some(RadiusClient { name: n.clone(), ipaddr: i.clone(), secret: s.clone() }),
                _ => None,
            }
        },
        _ => None,
    }
}

#[verifier::loop_isolation(false)]
fn strs_of_nodes_exec(items: &Vec<DocValue>) -> (r: Option<Vec<String>>)
    ensures
        match strs_of_nodes(doc_seq_view(items@)) {
            Some(v) => r matches Some(rv) && strs_view(rv@) == v,
            None => r is None,
        },
{
    let ghost iv = doc_seq_view(items@);
    proof {
        doc::lemma_doc_seq_view(items@);
    }
    let mut out: Vec<String> = Vec::new();
    let mut i: usize = 0;
    proof {
        assert(iv.skip(0) =~= iv);
        assert(strs_view(out@) =~= Seq::<Seq<char>>::empty());
    }
    while i < items.len()
        invariant
            i <= items@.len(),
            match strs_of_nodes(iv.skip(i as int)) {
                Some(rest) => strs_of_nodes(iv) == Some(strs_view(out@) + rest),
                None => strs_of_nodes(iv) is None,
            },
        decreases items@.len() - i,
    {
        let ghost tail = iv.skip(i as int);
        proof {
            assert(tail.len() > 0);
            assert(tail[0] == items@[i as int]@);
            assert(tail.skip(1) =~= iv.skip(i as int + 1));
        }
        match &items[i] {
            DocValue::Str(s) => {
                let ghost old_out = out@;
                out.push(s.clone());
                proof {
                    assert(strs_view(out@) =~= strs_view(old_out) + seq![s@]);
                    match strs_of_nodes(iv.skip(i as int + 1)) {
                        Some(rest2) => {
                            assert(strs_of_nodes(tail) == Some(seq![s@] + rest2));
                            assert((strs_view(old_out) + (seq![s@] + rest2)) =~= (strs_view(out@)
                                + rest2));
                        },
                        None => {},
                    }
                }
            },
            _ => {
                proof {
                    assert(strs_of_nodes(tail) is None);
                }
                return None;
            },
        }
        i = i + 1;
    }
    proof {
        assert(iv.skip(items@.len() as int) =~= Seq::<DocView>::empty());
        assert(strs_view(out@) + Seq::<Seq<char>>::empty() =~= strs_view(out@));
    }
    Some(out)
}

#[verifier::loop_isolation(false)]
fn groups_of_nodes_exec(items: &Vec<DocValue>) -> (r: Option<Vec<RadiusGroup>>)
    ensures
        match groups_of_nodes(doc_seq_view(items@)) {
            Some(v) => r matches Some(rv) && groups_view(rv@) == v,
            None => r is None,
        },
{
    let ghost iv = doc_seq_view(items@);
    proof {
        doc::lemma_doc_seq_view(items@);
    }
    let mut out: Vec<RadiusGroup> = Vec::new();
    let mut i: usize = 0;
    proof {
        assert(iv.skip(0) =~= iv);
        assert(groups_view(out@) =~= Seq::<RadiusGroupView>::empty());
    }
    while i < items.len()
        invariant
            i <= items@.len(),
            match groups_of_nodes(iv.skip(i as int)) {
                Some(rest) => groups_of_nodes(iv) == Some(groups_view(out@) + rest),
                None => groups_of_nodes(iv) is None,
            },
        decreases items@.len() - i,
    {
        let ghost tail = iv.skip(i as int);
        proof {
            assert(tail.len() > 0);
            assert(tail[0] == items@[i as int]@);
            assert(tail.skip(1) =~= iv.skip(i as int + 1));
        }
        match group_of_node_exec(&items[i]) {
            Some(g) => {
                let ghost old_out = out@;
                let ghost gv = g@;
                out.push(g);
                proof {
                    assert(groups_view(out@) =~= groups_view(old_out) + seq![gv]);
                    match groups_of_nodes(iv.skip(i as int + 1)) {
                        Some(rest2) => {
                            assert(groups_of_nodes(tail) == Some(seq![gv] + rest2));
                            assert((groups_view(old_out) + (seq![gv] + rest2)) =~= (groups_view(
                                out@,
                            ) + rest2));
                        },
                        None => {},
                    }
                }
            },
            None => {
                proof {
                    assert(groups_of_nodes(tail) is None);
                }
                return None;
            },
        }
        i = i + 1;
    }
    proof {
        assert(iv.skip(items@.len() as int) =~= Seq::<DocView>::empty());
        assert(groups_view(out@) + Seq::<RadiusGroupView>::empty() =~= groups_view(out@));
    }
    Some(out)
}

#[verifier::loop_isolation(false)]
fn clients_of_nodes_exec(items: &Vec<DocValue>) -> (r: Option<Vec<RadiusClient>>)
    ensures
        match clients_of_nodes(doc_seq_view(items@)) {
            Some(v) => r matches Some(rv) && clients_view(rv@) == v,
            None => r is None,
        },
{
    let ghost iv = doc_seq_view(items@);
    proof {
        doc::lemma_doc_seq_view(items@);
    }
    let mut out: Vec<RadiusClient> = Vec::new();
    let mut i: usize = 0;
    proof {
        assert(iv.skip(0) =~= iv);
        assert(clients_view(out@) =~= Seq::<RadiusClientView>::empty());
    }
    while i < items.len()
        invariant
            i <= items@.len(),
            match clients_of_nodes(iv.skip(i as int)) {
                Some(rest) => clients_of_nodes(iv) == Some(clients_view(out@) + rest),
                None => clients_of_nodes(iv) is None,
            },
        decreases items@.len() - i,
    {
        let ghost tail = iv.skip(i as int);
        proof {
            assert(tail.len() > 0);
            assert(tail[0] == items@[i as int]@);
            assert(tail.skip(1) =~= iv.skip(i as int + 1));
        }
        match client_of_node_exec(&items[i]) {
            Some(c) => {
                let ghost old_out = out@;
                let ghost cv = c@;
                out.push(c);
                proof {
                    assert(clients_view(out@) =~= clients_view(old_out) + seq![cv]);
                    match clients_of_nodes(iv.skip(i as int + 1)) {
                        Some(rest2) => {
                            assert(clients_of_nodes(tail) == Some(seq![cv] + rest2));
                            assert((clients_view(old_out) + (seq![cv] + rest2)) =~= (clients_view(
                                out@,
                            ) + rest2));
                        },
                        None => {},
                    }
                }
            },
            None => {
                proof {
                    assert(clients_of_nodes(tail) is None);
                }
                return None;
            },
        }
        i = i + 1;
    }
    proof {
        assert(iv.skip(items@.len() as int) =~= Seq::<DocView>::empty());
        assert(clients_view(out@) + Seq::<RadiusClientView>::empty() =~= clients_view(out@));
    }
    Some(out)
}

fn opt_strs_field_exec(pairs: &Vec<(String, DocValue)>, key: &str) -> (r: Option<
    Option<Vec<String>>,
>)
    ensures
        match opt_strs_field(doc_pairs_view(pairs@), key@) {
            Some(o) => match (r, o) {
                (Some(Some(rv)), Some(v)) => strs_view(rv@) == v,
                (Some(None), None) => true,
                _ => false,
            },
            None => r is None,
        },
{
    match lookup_exec(pairs, key) {
        None => Some(None),
        Some(DocValue::Null) => Some(None),
        Some(DocValue::Arr(items)) => match strs_of_nodes_exec(items) {
            Some(v) => Some(Some(v)),
            None => None,
        },
        Some(_) => None,
    }
}

fn opt_groups_field_exec(pairs: &Vec<(String, DocValue)>, key: &str) -> (r: Option<
    Option<Vec<RadiusGroup>>,
>)
    ensures
        match opt_groups_field(doc_pairs_view(pairs@), key@) {
            Some(o) => match (r, o) {
                (Some(Some(rv)), Some(v)) => groups_view(rv@) == v,
                (Some(None), None) => true,
                _ => false,
            },
            None => r is None,
        },
{
    match lookup_exec(pairs, key) {
        None => Some(None),
        Some(DocValue::Null) => Some(None),
        Some(DocValue::Arr(items)) => match groups_of_nodes_exec(items) {
            Some(v) => Some(Some(v)),
            None => None,
        },
        Some(_) => None,
    }
}

fn opt_clients_field_exec(pairs: &Vec<(String, DocValue)>, key: &str) -> (r: Option<
    Option<Vec<RadiusClient>>,
>)
    ensures
        match opt_clients_field(doc_pairs_view(pairs@), key@) {
            Some(o) => match (r, o) {
                (Some(Some(rv)), Some(v)) => clients_view(rv@) == v,
                (Some(None), None) => true,
                _ => false,
            },
            None => r is None,
        },
{
    match lookup_exec(pairs, key) {
        None => Some(None),
        Some(DocValue::Null) => Some(None),
        Some(DocValue::Arr(items)) => match clients_of_nodes_exec(items) {
            Some(v) => Some(Some(v)),
            None => None,
        },
        Some(_) => None,
    }
}

/// Whether `k` is one of the reserved field names.
fn is_fixed_key(k: &str) -> (r: bool)
    ensures
        r == fixed_key(k@),
{
    doc::str_eq(k, "uri") || doc::str_eq(k, "verify_ca") || doc::str_eq(k, "verify_hostnames")
        || doc::str_eq(k, "ca_path") || doc::str_eq(k, "username") || doc::str_eq(k, "password")
        || doc::str_eq(k, "radius_required_groups") || doc::str_eq(k, "radius_groups")
        || doc::str_eq(k, "radius_clients") || doc::str_eq(k, "name")
}

pub open spec fn instances_view(v: Seq<(String, InstanceSettings)>) -> Seq<
    (Seq<char>, InstanceView),
> {
    v.map_values(|pr: (String, InstanceSettings)| (pr.0@, pr.1@))
}

#[verifier::loop_isolation(false)]
#[verifier::rlimit(60)]
fn instances_of_pairs_exec(pairs: &Vec<(String, DocValue)>) -> (r: Option<
    Vec<(String, InstanceSettings)>,
>)
    ensures
        match instances_of_pairs(extra_pairs(doc_pairs_view(pairs@))) {
            Some(v) => r matches Some(rv) && instances_view(rv@) == v,
            None => r is None,
        },
{
    let ghost pv = doc_pairs_view(pairs@);
    proof {
        doc::lemma_doc_pairs_view(pairs@);
    }
    let mut out: Vec<(String, InstanceSettings)> = Vec::new();
    let mut i: usize = 0;
    proof {
        assert(pv.skip(0) =~= pv);
        assert(instances_view(out@) =~= Seq::<(Seq<char>, InstanceView)>::empty());
    }
    while i < pairs.len()
        invariant
            i <= pairs@.len(),
            match instances_of_pairs(extra_pairs(pv.skip(i as int))) {
                Some(rest) => instances_of_pairs(extra_pairs(pv)) == Some(
                    instances_view(out@) + rest,
                ),
                None => instances_of_pairs(extra_pairs(pv)) is None,
            },
        decreases pairs@.len() - i,
    {
        let ghost tail = pv.skip(i as int);
        proof {
            assert(tail.len() > 0);
            assert(tail[0] == pv[i as int]);
            assert(tail.skip(1) =~= pv.skip(i as int + 1));
        }
        if is_fixed_key(pairs[i].0.as_str()) {
            proof {
                assert(extra_pairs(tail) == extra_pairs(pv.skip(i as int + 1)));
            }
        } else {
            let ghost ep = extra_pairs(tail);
            proof {
                assert(ep == seq![pv[i as int]] + extra_pairs(pv.skip(i as int + 1)));
                assert(ep.len() > 0);
                assert(ep[0] == pv[i as int]);
                assert(ep.skip(1) =~= extra_pairs(pv.skip(i as int + 1)));
            }
            match instance_of_node_exec(&pairs[i].1) {
                Some(ins) => {
                    let ghost old_out = out@;
                    let ghost entry = (pairs@[i as int].0@, ins@);
                    let key = pairs[i].0.clone();
                    out.push((key, ins));
                    proof {
                        assert(instances_view(out@) =~= instances_view(old_out) + seq![entry]);
                        match instances_of_pairs(extra_pairs(pv.skip(i as int + 1))) {
                            Some(rest2) => {
                                assert(instances_of_pairs(ep) == Some(seq![entry] + rest2));
                                assert((instances_view(old_out) + (seq![entry] + rest2)) =~= (
                                instances_view(out@) + rest2));
                            },
                            None => {},
                        }
                    }
                },
                None => {
                    proof {
                        assert(instances_of_pairs(ep) is None);
                    }
                    return None;
                },
            }
        }
        i = i + 1;
    }
    proof {
        assert(pv.skip(pairs@.len() as int) =~= Seq::<(Seq<char>, DocView)>::empty());
        assert(extra_pairs(Seq::<(Seq<char>, DocView)>::empty()) =~= Seq::<
            (Seq<char>, DocView),
        >::empty());
        assert(instances_view(out@) + Seq::<(Seq<char>, InstanceView)>::empty() =~= instances_view(
            out@,
        ));
    }
    Some(out)
}

/// Reads a profile back from a generic document, taking the name from the
/// document's `name` entry when present and from `fallback_name` otherwise.
pub fn from_document(d: &DocValue, fallback_name: &str) -> (r: Option<KanidmClientConfig>)
    ensures
        match record_of_doc(d@, fallback_name@) {
            Some(pv) => r matches Some(p) && p@ == pv,
            None => r is None,
        },
{
    let pairs = match d {
        DocValue::Obj(pairs) => pairs,
        _ => {
            return None;
        },
    };
    let name: String = match lookup_exec(pairs, "name") {
        None => fallback_name.to_owned(),
        Some(DocValue::Str(s)) => s.clone(),
        Some(_) => {
            return None;
        },
    };
    let uri = match opt_str_field_exec(pairs, "uri") {
        Some(v) => v,
        None => {
            return None;
        },
    };
    let verify_ca = match opt_bool_field_exec(pairs, "verify_ca") {
        Some(v) => v,
        None => {
            return None;
        },
    };
    let verify_hostnames = match opt_bool_field_exec(pairs, "verify_hostnames") {
        Some(v) => v,
        None => {
            return None;
        },
    };
    let ca_path = match opt_str_field_exec(pairs, "ca_path") {
        Some(v) => v,
        None => {
            return None;
        },
    };
    let username = match opt_str_field_exec(pairs, "username") {
        Some(v) => v,
        None => {
            return None;
        },
    };
    let password = match opt_str_field_exec(pairs, "password") {
        Some(v) => v,
        None => {
            return None;
        },
    };
    let radius_required_groups = match opt_strs_field_exec(pairs, "radius_required_groups") {
        Some(v) => v,
        None => {
            return None;
        },
    };
    let radius_groups = match opt_groups_field_exec(pairs, "radius_groups") {
        Some(v) => v,
        None => {
            return None;
        },
    };
    let radius_clients = match opt_clients_field_exec(pairs, "radius_clients") {
        Some(v) => v,
        None => {
            return None;
        },
    };
    let instances = match instances_of_pairs_exec(pairs) {
        Some(v) => v,
        None => {
            return None;
        },
    };
    Some(
        KanidmClientConfig {
            name,
            default: InstanceSettings { uri, verify_ca, verify_hostnames, ca_path },
            instances,
            username,
            password,
            radius_required_groups,
            radius_groups,
            radius_clients,
        },
    )
}


// ---------------------------------------------------------------------------
// Field access on a profile
// ---------------------------------------------------------------------------
/// Why reading or replacing a single field failed.
#[derive(Clone, Copy, Debug, PartialEq, Eq, Structural)]
pub enum FieldError {
    /// The path did not resolve to any node.
    NotFound,
    /// The path resolved, but not to a text leaf, so a `get` has nothing to
    /// render as-is. A `set` never reports this: it replaces a resolved node
    /// of any kind.
    NotText,
}

/// Reads the field under `field` from this profile's flattened document, as
/// the `get` mode does: only a text leaf is rendered.
pub fn get_field_value(profile: &KanidmClientConfig, field: &str) -> (r: Result<
    String,
    FieldError,
>)
    ensures
        match doc::ptr_get(doc_of(profile@), field@) {
            Some(DocView::Str(s)) => r matches Ok(v) && v@ == s,
            Some(_) => r == Err::<String, FieldError>(FieldError::NotText),
            None => r == Err::<String, FieldError>(FieldError::NotFound),
        },
{
    let d = profile.to_document();
    match doc::pointer_get(&d, field) {
        Some(DocValue::Str(s)) => Ok(s.clone()),
        Some(_) => Err(FieldError::NotText),
        None => Err(FieldError::NotFound),
    }
}

/// Replaces the field under `field` by the text `value` in this profile's
/// flattened document, as the `set` mode does. Whatever kind of node the
/// path resolves to is replaced by the text leaf, no coercion attempted, and
/// handed back beside the mutated document; only a path that does not
/// resolve fails. The profile itself is untouched: the caller decides what
/// to do with the mutated document.
pub fn set_field_value(profile: &KanidmClientConfig, field: &str, value: String) -> (r: Result<
    (DocValue, DocValue),
    FieldError,
>)
    ensures
        match doc::ptr_get(doc_of(profile@), field@) {
            Some(node) => r matches Ok(pair) && pair.0@ == node && Some(pair.1@) == doc::ptr_set(
                doc_of(profile@),
                field@,
                DocView::Str(value@),
            ),
            None => r matches Err(e) && e == FieldError::NotFound,
        },
{
    let d = profile.to_document();
    proof {
        if doc::parse_pointer(field@) is Some {
            doc::lemma_get_set(
                doc_of(profile@),
                doc::parse_pointer(field@)->0,
                DocView::Str(value@),
            );
        }
    }
    match doc::pointer_replace(d, field, DocValue::Str(value)) {
        Ok(pair) => Ok(pair),
        Err(_) => Err(FieldError::NotFound),
    }
}

/// Reading the path `/uri` on any profile's document yields its default
/// URI field: the text when one is set, the null leaf when none is.
pub proof fn lemma_uri_path(p: ProfileView)
    ensures
        doc::ptr_get(doc_of(p), "/uri"@) == Some(opt_str_node(p.default.uri)),
{
    reveal_strlit("/uri");
    reveal_strlit("uri");
    assert("/uri"@.len() == 4);
    assert("/uri"@[0] == '/');
    assert("/uri"@.skip(1) =~= "uri"@);
    assert("uri"@.len() == 3);
    assert forall|i: int| 0 <= i < "uri"@.len() implies "uri"@[i] != '/' by {}
    doc::lemma_split_prefix("uri"@, 3);
    assert(doc::split_segments("uri"@) == seq!["uri"@]);
    assert forall|i: int| 0 <= i < "uri"@.len() implies "uri"@[i] != '~' by {}
    doc::lemma_replace_pair_identity("uri"@, '1', '/');
    doc::lemma_replace_pair_identity(doc::replace_pair("uri"@, '1', '/'), '0', '~');
    assert(doc::unescape("uri"@) == "uri"@);
    let segs = seq!["uri"@].map_values(|seg: Seq<char>| doc::unescape(seg));
    assert(doc::parse_pointer("/uri"@) == Some(segs));
    assert(segs =~= seq!["uri"@]);
    let pairs = fixed_pairs(p) + instance_pairs(p.instances);
    assert(pairs[0] == ("uri"@, opt_str_node(p.default.uri)));
    lemma_lookup_at(pairs, "uri"@, 0);
    assert(segs.skip(1) =~= Seq::<Seq<char>>::empty());
    assert(doc::doc_get(doc_of(p), segs) == doc::doc_get(
        opt_str_node(p.default.uri),
        segs.skip(1),
    ));
    assert(doc::doc_get(opt_str_node(p.default.uri), Seq::<Seq<char>>::empty()) == Some(
        opt_str_node(p.default.uri),
    ));
}

// ---------------------------------------------------------------------------
// Display form
// ---------------------------------------------------------------------------
/// A URI, or the placeholder shown when none is set.
pub open spec fn uri_text(o: Option<Seq<char>>) -> Seq<char> {
    match o {
        Some(s) => s,
        None => "<unset>"@,
    }
}

pub open spec fn instance_line(pr: (Seq<char>, InstanceView)) -> Seq<char> {
    " - instance uri: "@ + pr.0 + " ("@ + uri_text(pr.1.uri) + ")"@
}

pub open spec fn instances_text(is: Seq<(Seq<char>, InstanceView)>) -> Seq<char>
    decreases is.len(),
{
    if is.len() == 0 {
        Seq::<char>::empty()
    } else {
        instance_line(is[0]) + instances_text(is.skip(1))
    }
}

/// The one-line display form of a profile: `name (uri)`, and its
/// sub-instances after it when it has any.
pub open spec fn display_of(p: ProfileView) -> Seq<char> {
    p.name + " ("@ + uri_text(p.default.uri) + ")"@ + if p.instances.len() > 0 {
        "sub-instances:"@ + instances_text(p.instances)
    } else {
        Seq::<char>::empty()
    }
}

impl KanidmClientConfig {
    /// The text a profile is listed under when the user picks one.
    #[verifier::loop_isolation(false)]
    pub fn display_string(&self) -> (r: String)
        ensures
            r@ == display_of(self@),
    {
        let mut out = self.name.clone();
        out.append(" (");
        match &self.default.uri {
            Some(u) => out.append(u.as_str()),
            None => out.append("<unset>"),
        }
        out.append(")");
        let ghost base = self@.name + " ("@ + uri_text(self@.default.uri) + ")"@;
        proof {
            assert(out@ =~= base);
        }
        if self.instances.len() > 0 {
            out.append("sub-instances:");
            let ghost head = base + "sub-instances:"@;
            let ghost iview = self@.instances;
            proof {
                assert(out@ =~= head);
                assert(iview.skip(0) =~= iview);
                assert(head + instances_text(iview) =~= out@ + instances_text(iview.skip(0)));
            }
            let mut i: usize = 0;
            while i < self.instances.len()
                invariant
                    i <= self.instances@.len(),
                    head + instances_text(iview) == out@ + instances_text(iview.skip(i as int)),
                decreases self.instances@.len() - i,
            {
                let ghost tail = iview.skip(i as int);
                let ghost old_out = out@;
                proof {
                    assert(tail.len() > 0);
                    assert(tail[0] == iview[i as int]);
                    assert(tail.skip(1) =~= iview.skip(i as int + 1));
                    assert(iview[i as int] == (
                        self.instances@[i as int].0@,
                        self.instances@[i as int].1@,
                    ));
                }
                out.append(" - instance uri: ");
                out.append(self.instances[i].0.as_str());
                out.append(" (");
                match &self.instances[i].1.uri {
                    Some(u) => out.append(u.as_str()),
                    None => out.append("<unset>"),
                }
                out.append(")");
                proof {
                    assert(out@ =~= old_out + instance_line(iview[i as int]));
                    assert(instances_text(tail) == instance_line(tail[0]) + instances_text(
                        iview.skip(i as int + 1),
                    ));
                    assert(old_out + (instance_line(tail[0]) + instances_text(
                        iview.skip(i as int + 1),
                    )) =~= out@ + instances_text(iview.skip(i as int + 1)));
                }
                i = i + 1;
            }
            proof {
                assert(iview.skip(self.instances@.len() as int) =~= Seq::<
                    (Seq<char>, InstanceView),
                >::empty());
                assert(out@ + Seq::<char>::empty() =~= out@);
                assert(display_of(self@) == head + instances_text(iview));
            }
        } else {
            proof {
                assert(base + Seq::<char>::empty() =~= base);
            }
        }
        out
    }
}

// ---------------------------------------------------------------------------
// The active-configuration document
// ---------------------------------------------------------------------------
pub open spec fn opt_entry(key: Seq<char>, o: Option<DocView>) -> Seq<(Seq<char>, DocView)> {
    match o {
        Some(n) => seq![(key, n)],
        None => Seq::<(Seq<char>, DocView)>::empty(),
    }
}

pub open spec fn opt_str_entry(key: Seq<char>, o: Option<Seq<char>>) -> Seq<(Seq<char>, DocView)> {
    match o {
        Some(s) => seq![(key, DocView::Str(s))],
        None => Seq::<(Seq<char>, DocView)>::empty(),
    }
}

pub open spec fn opt_bool_entry(key: Seq<char>, o: Option<bool>) -> Seq<(Seq<char>, DocView)> {
    match o {
        Some(b) => seq![(key, DocView::Bool(b))],
        None => Seq::<(Seq<char>, DocView)>::empty(),
    }
}

/// The present optional fields of the profile, in the fixed order.
pub open spec fn active_fixed_pairs(p: ProfileView) -> Seq<(Seq<char>, DocView)> {
    opt_str_entry("uri"@, p.default.uri) + opt_bool_entry("verify_ca"@, p.default.verify_ca)
        + opt_bool_entry("verify_hostnames"@, p.default.verify_hostnames) + opt_str_entry(
        "ca_path"@,
        p.default.ca_path,
    ) + opt_str_entry("username"@, p.username) + opt_str_entry("password"@, p.password)
        + opt_entry(
        "radius_required_groups"@,
        match p.radius_required_groups {
            Some(v) => Some(str_list_node(v)),
            None => None,
        },
    ) + opt_entry(
        "radius_groups"@,
        match p.radius_groups {
            Some(v) => Some(group_list_node(v)),
            None => None,
        },
    ) + opt_entry(
        "radius_clients"@,
        match p.radius_clients {
            Some(v) => Some(client_list_node(v)),
            None => None,
        },
    )
}

/// The document written as the active configuration: as [`doc_of`], but
/// absent optional fields are left out instead of carrying a null, since the
/// output format has no null.
pub open spec fn active_doc_of(p: ProfileView) -> DocView {
    DocView::Obj(active_fixed_pairs(p) + instance_pairs(p.instances))
}

fn push_entry(pairs: &mut Vec<(String, DocValue)>, key: String, node: DocValue)
    ensures
        doc_pairs_view(final(pairs)@) == doc_pairs_view(old(pairs)@) + seq![(key@, node@)],
{
    let ghost prev = doc_pairs_view(pairs@);
    pairs.push((key, node));
    proof {
        doc::lemma_doc_pairs_view(old(pairs)@);
        doc::lemma_doc_pairs_view(pairs@);
        assert(doc_pairs_view(pairs@) =~= prev + seq![(pairs@.last().0@, pairs@.last().1@)]);
    }
}

fn push_opt_str(pairs: &mut Vec<(String, DocValue)>, key: &str, o: &Option<String>)
    ensures
        doc_pairs_view(final(pairs)@) == doc_pairs_view(old(pairs)@) + opt_str_entry(
            key@,
            opt_str_view(*o),
        ),
{
    match o {
        Some(u) => {
            push_entry(pairs, key.to_owned(), DocValue::Str(u.clone()));
        },
        None => {
            proof {
                assert(doc_pairs_view(pairs@) + opt_str_entry(key@, opt_str_view(*o))
                    =~= doc_pairs_view(pairs@));
            }
        },
    }
}

fn push_opt_bool(pairs: &mut Vec<(String, DocValue)>, key: &str, o: &Option<bool>)
    ensures
        doc_pairs_view(final(pairs)@) == doc_pairs_view(old(pairs)@) + opt_bool_entry(key@, *o),
{
    match o {
        Some(b) => {
            push_entry(pairs, key.to_owned(), DocValue::Bool(*b));
        },
        None => {
            proof {
                assert(doc_pairs_view(pairs@) + opt_bool_entry(key@, *o) =~= doc_pairs_view(
                    pairs@,
                ));
            }
        },
    }
}

fn push_opt_node(pairs: &mut Vec<(String, DocValue)>, key: &str, node: Option<DocValue>)
    ensures
        doc_pairs_view(final(pairs)@) == doc_pairs_view(old(pairs)@) + opt_entry(
            key@,
            match node {
                Some(n) => Some(n@),
                None => None,
            },
        ),
{
    match node {
        Some(n) => {
            push_entry(pairs, key.to_owned(), n);
        },
        None => {
            proof {
                assert(doc_pairs_view(pairs@) + Seq::<(Seq<char>, DocView)>::empty()
                    =~= doc_pairs_view(pairs@));
            }
        },
    }
}

#[verifier::rlimit(100)]
fn active_fixed_pairs_exec(c: &KanidmClientConfig) -> (r: Vec<(String, DocValue)>)
    ensures
        doc_pairs_view(r@) == active_fixed_pairs(c@),
{
    let mut pairs: Vec<(String, DocValue)> = Vec::new();
    proof {
        doc::lemma_doc_pairs_view(pairs@);
        assert(doc_pairs_view(pairs@) =~= Seq::<(Seq<char>, DocView)>::empty());
    }
    push_opt_str(&mut pairs, "uri", &c.default.uri);
    proof {
        assert(Seq::<(Seq<char>, DocView)>::empty() + opt_str_entry("uri"@, c@.default.uri)
            =~= opt_str_entry("uri"@, c@.default.uri));
    }
    push_opt_bool(&mut pairs, "verify_ca", &c.default.verify_ca);
    push_opt_bool(&mut pairs, "verify_hostnames", &c.default.verify_hostnames);
    push_opt_str(&mut pairs, "ca_path", &c.default.ca_path);
    push_opt_str(&mut pairs, "username", &c.username);
    push_opt_str(&mut pairs, "password", &c.password);
    let rrg = match &c.radius_required_groups {
        Some(v) => Some(strs_node_exec(v)),
        None => None,
    };
    push_opt_node(&mut pairs, "radius_required_groups", rrg);
    let rg = match &c.radius_groups {
        Some(v) => Some(groups_node_exec(v)),
        None => None,
    };
    push_opt_node(&mut pairs, "radius_groups", rg);
    let rc = match &c.radius_clients {
        Some(v) => Some(clients_node_exec(v)),
        None => None,
    };
    push_opt_node(&mut pairs, "radius_clients", rc);
    pairs
}

impl KanidmClientConfig {
    /// The document the writer serializes: present fields only, no `name`.
    #[verifier::loop_isolation(false)]
    pub fn to_active_document(&self) -> (r: DocValue)
        ensures
            r@ == active_doc_of(self@),
    {
        let mut pairs = active_fixed_pairs_exec(self);
        let ghost built = active_fixed_pairs(self@);
        let ghost fixed_len = pairs@.len() as int;
        proof {
            doc::lemma_doc_pairs_view(pairs@);
            assert(built.len() == fixed_len);
            assert forall|k: int| 0 <= k < fixed_len implies ((#[trigger] pairs@[k]).0@, pairs@[
                k].1@) == built[k] by {
                assert(doc_pairs_view(pairs@)[k] == (pairs@[k].0@, pairs@[k].1@));
            }
        }
        let mut i: usize = 0;
        while i < self.instances.len()
            invariant
                i <= self.instances@.len(),
                pairs@.len() == fixed_len + i,
                forall|k: int| 0 <= k < fixed_len ==> ((#[trigger] pairs@[k]).0@, pairs@[k].1@)
                    == built[k],
                forall|k: int| 0 <= k < i ==> ((#[trigger] pairs@[fixed_len + k]).0@, pairs@[
                    fixed_len + k].1@) == (
                    self.instances@[k].0@,
                    instance_node(self.instances@[k].1@),
                ),
            decreases self.instances@.len() - i,
        {
            let name = self.instances[i].0.clone();
            let node = instance_node_exec(&self.instances[i].1);
            pairs.push((name, node));
            i = i + 1;
        }
        proof {
            doc::lemma_doc_pairs_view(pairs@);
            let target = built + instance_pairs(self@.instances);
            assert(self@.instances.len() == self.instances@.len());
            assert forall|k: int| 0 <= k < pairs@.len() implies #[trigger] doc_pairs_view(
                pairs@,
            )[k] == target[k] by {
                if k >= fixed_len {
                    assert(pairs@[fixed_len + (k - fixed_len)] == pairs@[k]);
                    assert(instance_pairs(self@.instances)[k - fixed_len] == (
                        self@.instances[k - fixed_len].0,
                        instance_node(self@.instances[k - fixed_len].1),
                    ));
                    assert(self@.instances[k - fixed_len] == (
                        self.instances@[k - fixed_len].0@,
                        self.instances@[k - fixed_len].1@,
                    ));
                }
            }
            assert(doc_pairs_view(pairs@) =~= target);
        }
        DocValue::Obj(pairs)
    }
}

} // verus!
