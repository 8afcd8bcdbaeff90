//! The protocol's value schema: the executable data types callers build and
//! receive, and the ghost model the codec's contracts are stated over.

use vstd::prelude::*;

verus! {

/// A node record: identity, labels and properties.
#[derive(Debug, PartialEq, Eq)]
pub struct Node {
    pub id: i64,
    pub labels: Vec<String>,
    pub properties: Vec<(String, Value)>,
}

/// A relationship record bound to its endpoint nodes.
#[derive(Debug, PartialEq, Eq)]
pub struct Relationship {
    pub id: i64,
    pub start_node_id: i64,
    pub end_node_id: i64,
    pub rel_type: String,
    pub properties: Vec<(String, Value)>,
}

/// A relationship record detached from its endpoints, as used inside paths.
#[derive(Debug, PartialEq, Eq)]
pub struct UnboundRelationship {
    pub id: i64,
    pub rel_type: String,
    pub properties: Vec<(String, Value)>,
}

/// An alternating walk through nodes and relationships.
///
/// `sequence` alternates relationship indices and node indices; the codec
/// carries it verbatim.
#[derive(Debug, PartialEq, Eq)]
pub struct Path {
    pub nodes: Vec<Node>,
    pub relationships: Vec<UnboundRelationship>,
    pub sequence: Vec<i64>,
}

/// The closed sum of every value the wire format can carry.
///
/// `Float` holds the IEEE-754 bit pattern of the 64-bit value, which is
/// exactly what the wire carries; this keeps equality total and exact, so
/// every float round-trips bit-identically. `Integer` holds the widest
/// signed form; the encoder picks the smallest width that fits. `Map` holds
/// its entries in wire order. `Date` counts days since the Unix epoch.
/// `Time` is (nanoseconds since midnight, offset seconds from UTC).
#[derive(Debug, PartialEq, Eq)]
pub enum Value {
    Null,
    Boolean(bool),
    Integer(i64),
    Float(u64),
    Bytes(Vec<u8>),
    String(String),
    List(Vec<Value>),
    Dictionary(Vec<(String, Value)>),
    Node(Node),
    Relationship(Relationship),
    UnboundRelationship(UnboundRelationship),
    Path(Path),
    Date(i64),
    Time(i64, i64),
}

/// Ghost model of a node.
#[verifier::ext_equal]
pub struct NodeM {
    pub id: i64,
    pub labels: Seq<Seq<char>>,
    pub properties: Seq<(Seq<char>, BVal)>,
}

/// Ghost model of a bound relationship.
#[verifier::ext_equal]
pub struct RelM {
    pub id: i64,
    pub start_node_id: i64,
    pub end_node_id: i64,
    pub rel_type: Seq<char>,
    pub properties: Seq<(Seq<char>, BVal)>,
}

/// Ghost model of an unbound relationship.
#[verifier::ext_equal]
pub struct UnboundRelM {
    pub id: i64,
    pub rel_type: Seq<char>,
    pub properties: Seq<(Seq<char>, BVal)>,
}

/// Ghost model of a path.
#[verifier::ext_equal]
pub struct PathM {
    pub nodes: Seq<NodeM>,
    pub relationships: Seq<UnboundRelM>,
    pub sequence: Seq<i64>,
}

/// Ghost model of a value: the mathematical object a `Value` denotes, with
/// sequences in place of vectors and character sequences in place of owned
/// strings. All codec contracts are stated over this type.
#[verifier::ext_equal]
pub enum BVal {
    Null,
    Bool(bool),
    Int(i64),
    Float(u64),
    Bytes(Seq<u8>),
    Str(Seq<char>),
    List(Seq<BVal>),
    Dict(Seq<(Seq<char>, BVal)>),
    Node(NodeM),
    Rel(RelM),
    UnboundRel(UnboundRelM),
    Path(PathM),
    Date(i64),
    Time(i64, i64),
}

/// The models of a sequence of values, element by element.
pub open spec fn val_models(l: Seq<Value>) -> Seq<BVal>
    decreases l,
{
    if l.len() == 0 {
        Seq::empty()
    } else {
        seq![l[0].model()] + val_models(l.drop_first())
    }
}

/// The models of a sequence of (key, value) entries.
pub open spec fn entry_models(es: Seq<(String, Value)>) -> Seq<(Seq<char>, BVal)>
    decreases es,
{
    if es.len() == 0 {
        Seq::empty()
    } else {
        seq![(es[0].0@, es[0].1.model())] + entry_models(es.drop_first())
    }
}

/// The views of a sequence of strings.
pub open spec fn str_models(l: Seq<String>) -> Seq<Seq<char>> {
    Seq::new(l.len(), |i: int| l[i]@)
}

/// The models of a sequence of nodes.
pub open spec fn node_models(ns: Seq<Node>) -> Seq<NodeM>
    decreases ns,
{
    if ns.len() == 0 {
        Seq::empty()
    } else {
        seq![ns[0].model()] + node_models(ns.drop_first())
    }
}

/// The models of a sequence of unbound relationships.
pub open spec fn unbound_models(rs: Seq<UnboundRelationship>) -> Seq<UnboundRelM>
    decreases rs,
{
    if rs.len() == 0 {
        Seq::empty()
    } else {
        seq![rs[0].model()] + unbound_models(rs.drop_first())
    }
}

pub broadcast proof fn lemma_val_models_len(l: Seq<Value>)
    ensures
        (#[trigger] val_models(l)).len() == l.len(),
    decreases l,
{
    if l.len() > 0 {
        lemma_val_models_len(l.drop_first());
    }
}

pub broadcast proof fn lemma_val_models_index(l: Seq<Value>, i: int)
    requires
        0 <= i < l.len(),
    ensures
        #[trigger] val_models(l)[i] == l[i].model(),
    decreases l,
{
    lemma_val_models_len(l);
    if i > 0 {
        lemma_val_models_index(l.drop_first(), i - 1);
    }
}

pub broadcast proof fn lemma_entry_models_len(es: Seq<(String, Value)>)
    ensures
        (#[trigger] entry_models(es)).len() == es.len(),
    decreases es,
{
    if es.len() > 0 {
        lemma_entry_models_len(es.drop_first());
    }
}

pub broadcast proof fn lemma_entry_models_index(es: Seq<(String, Value)>, i: int)
    requires
        0 <= i < es.len(),
    ensures
        #[trigger] entry_models(es)[i] == (es[i].0@, es[i].1.model()),
    decreases es,
{
    lemma_entry_models_len(es);
    if i > 0 {
        lemma_entry_models_index(es.drop_first(), i - 1);
    }
}

pub broadcast proof fn lemma_node_models_len(ns: Seq<Node>)
    ensures
        (#[trigger] node_models(ns)).len() == ns.len(),
    decreases ns,
{
    if ns.len() > 0 {
        lemma_node_models_len(ns.drop_first());
    }
}

pub broadcast proof fn lemma_node_models_index(ns: Seq<Node>, i: int)
    requires
        0 <= i < ns.len(),
    ensures
        #[trigger] node_models(ns)[i] == ns[i].model(),
    decreases ns,
{
    lemma_node_models_len(ns);
    if i > 0 {
        lemma_node_models_index(ns.drop_first(), i - 1);
    }
}

pub broadcast proof fn lemma_unbound_models_len(rs: Seq<UnboundRelationship>)
    ensures
        (#[trigger] unbound_models(rs)).len() == rs.len(),
    decreases rs,
{
    if rs.len() > 0 {
        lemma_unbound_models_len(rs.drop_first());
    }
}

pub broadcast proof fn lemma_unbound_models_index(rs: Seq<UnboundRelationship>, i: int)
    requires
        0 <= i < rs.len(),
    ensures
        #[trigger] unbound_models(rs)[i] == rs[i].model(),
    decreases rs,
{
    lemma_unbound_models_len(rs);
    if i > 0 {
        lemma_unbound_models_index(rs.drop_first(), i - 1);
    }
}

impl Node {
    /// The mathematical object this node denotes.
    pub open spec fn model(&self) -> NodeM
        decreases self,
    {
        NodeM {
            id: self.id,
            labels: str_models(self.labels@),
            properties: entry_models(self.properties@),
        }
    }
}

impl Relationship {
    /// The mathematical object this relationship denotes.
    pub open spec fn model(&self) -> RelM
        decreases self,
    {
        RelM {
            id: self.id,
            start_node_id: self.start_node_id,
            end_node_id: self.end_node_id,
            rel_type: self.rel_type@,
            properties: entry_models(self.properties@),
        }
    }
}

impl UnboundRelationship {
    /// The mathematical object this unbound relationship denotes.
    pub open spec fn model(&self) -> UnboundRelM
        decreases self,
    {
        UnboundRelM {
            id: self.id,
            rel_type: self.rel_type@,
            properties: entry_models(self.properties@),
        }
    }
}

impl Path {
    /// The mathematical object this path denotes.
    pub open spec fn model(&self) -> PathM
        decreases self,
    {
        PathM {
            nodes: node_models(self.nodes@),
            relationships: unbound_models(self.relationships@),
            sequence: self.sequence@,
        }
    }
}

impl Value {
    /// The mathematical object this value denotes; every codec contract is
    /// stated over it.
    pub open spec fn model(&self) -> BVal
        decreases self,
    {
        match self {
            Value::Null => BVal::Null,
            Value::Boolean(b) => BVal::Bool(*b),
            Value::Integer(n) => BVal::Int(*n),
            Value::Float(bits) => BVal::Float(*bits),
            Value::Bytes(b) => BVal::Bytes(b@),
            Value::String(s) => BVal::Str(s@),
            Value::List(l) => BVal::List(val_models(l@)),
            Value::Dictionary(m) => BVal::Dict(entry_models(m@)),
            Value::Node(n) => BVal::Node(n.model()),
            Value::Relationship(r) => BVal::Rel(r.model()),
            Value::UnboundRelationship(r) => BVal::UnboundRel(r.model()),
            Value::Path(p) => BVal::Path(p.model()),
            Value::Date(days) => BVal::Date(*days),
            Value::Time(nanos, offset) => BVal::Time(*nanos, *offset),
        }
    }
}

} // verus!
