//! YAML documents as the configuration checks read them.
use vstd::prelude::*;
use crate::text::{chars_of, seq_eq};

verus! {

/// A YAML value. A number is held as its text; a tagged value keeps its
/// tag and the value tagged.
#[derive(Debug)]
pub enum Yaml {
    Null,
    Bool(bool),
    Number(String),
    Str(String),
    Sequence(Vec<Yaml>),
    Mapping(Vec<(Yaml, Yaml)>),
    Tagged(String, Box<Yaml>),
}

/// The mathematical model of a [`Yaml`] value.
pub enum YamlV {
    Null,
    Bool(bool),
    Number(Seq<char>),
    Str(Seq<char>),
    Sequence(Seq<YamlV>),
    Mapping(Seq<(YamlV, YamlV)>),
    Tagged(Seq<char>, Box<YamlV>),
}

impl View for Yaml {
    type V = YamlV;

    open spec fn view(&self) -> YamlV
        decreases self,
    {
        match self {
            Yaml::Null => YamlV::Null,
            Yaml::Bool(b) => YamlV::Bool(*b),
            Yaml::Number(t) => YamlV::Number(t@),
            Yaml::Str(s) => YamlV::Str(s@),
            Yaml::Sequence(a) => YamlV::Sequence(yviews(a@)),
            Yaml::Mapping(m) => YamlV::Mapping(yentry_views(m@)),
            Yaml::Tagged(t, v) => YamlV::Tagged(t@, Box::new((**v).view())),
        }
    }
}

/// The models of a sequence of values.
pub open spec fn yviews(a: Seq<Yaml>) -> Seq<YamlV>
    decreases a,
{
    if a.len() == 0 {
        Seq::empty()
    } else {
        yviews(a.drop_last()).push(a.last().view())
    }
}

/// The models of a sequence of mapping entries.
pub open spec fn yentry_views(m: Seq<(Yaml, Yaml)>) -> Seq<(YamlV, YamlV)>
    decreases m,
{
    if m.len() == 0 {
        Seq::empty()
    } else {
        yentry_views(m.drop_last()).push((m.last().0.view(), m.last().1.view()))
    }
}

/// Element `i` of the models is the model of element `i`.
pub proof fn lemma_yviews(a: Seq<Yaml>)
    ensures
        yviews(a).len() == a.len(),
        forall|i: int| 0 <= i < a.len() ==> #[trigger] yviews(a)[i] == a[i]@,
    decreases a.len(),
{
    if a.len() > 0 {
        lemma_yviews(a.drop_last());
        assert(yviews(a) == yviews(a.drop_last()).push(a.last().view()));
        assert forall|i: int| 0 <= i < a.len() implies #[trigger] yviews(a)[i] == a[i]@ by {
            if i < a.len() - 1 {
                assert(a.drop_last()[i] == a[i]);
            }
        }
    }
}

/// Entry `i` of the models is the model of entry `i`.
pub proof fn lemma_yentry_views(m: Seq<(Yaml, Yaml)>)
    ensures
        yentry_views(m).len() == m.len(),
        forall|i: int| 0 <= i < m.len() ==> #[trigger] yentry_views(m)[i] == (m[i].0@, m[i].1@),
    decreases m.len(),
{
    if m.len() > 0 {
        lemma_yentry_views(m.drop_last());
        assert(yentry_views(m) == yentry_views(m.drop_last()).push(
            (m.last().0.view(), m.last().1.view()),
        ));
        assert forall|i: int| 0 <= i < m.len() implies #[trigger] yentry_views(m)[i] == (
            m[i].0@,
            m[i].1@,
        ) by {
            if i < m.len() - 1 {
                assert(m.drop_last()[i] == m[i]);
            }
        }
    }
}

/// The value under all its tags.
pub open spec fn untag(v: YamlV) -> YamlV
    decreases v,
{
    match v {
        YamlV::Tagged(_, inner) => untag(*inner),
        _ => v,
    }
}

/// The value of the first entry whose key is the string `key`.
pub open spec fn entry_for(m: Seq<(YamlV, YamlV)>, key: Seq<char>) -> Option<YamlV>
    decreases m.len(),
{
    if m.len() == 0 {
        None
    } else if m[0].0 == YamlV::Str(key) {
        Some(m[0].1)
    } else {
        entry_for(m.drop_first(), key)
    }
}

/// `v.get(key)`: the entry under the string `key` of a mapping, tags
/// looked through.
pub open spec fn yget(v: YamlV, key: Seq<char>) -> Option<YamlV> {
    match untag(v) {
        YamlV::Mapping(m) => entry_for(m, key),
        _ => None,
    }
}

/// `v.as_str()`, tags looked through.
pub open spec fn yas_str(v: YamlV) -> Option<Seq<char>> {
    match untag(v) {
        YamlV::Str(s) => Some(s),
        _ => None,
    }
}

/// `v.as_mapping()`, tags looked through.
pub open spec fn yas_map(v: YamlV) -> Option<Seq<(YamlV, YamlV)>> {
    match untag(v) {
        YamlV::Mapping(m) => Some(m),
        _ => None,
    }
}

impl Yaml {
    /// The value under all its tags.
    pub fn untag(&self) -> (r: &Yaml)
        ensures
            r@ == untag(self@),
        decreases self,
    {
        match self {
            Yaml::Tagged(_, inner) => inner.untag(),
            _ => self,
        }
    }

    /// Whether the value is the string `s`.
    pub fn is_str(&self, s: &str) -> (r: bool)
        ensures
            r == (self@ == YamlV::Str(s@)),
    {
        match self {
            Yaml::Str(t) => {
                let a = chars_of(t.as_str());
                let b = chars_of(s);
                seq_eq(a.as_slice(), b.as_slice())
            },
            _ => false,
        }
    }

    /// The text of a string value, tags looked through.
    pub fn as_str(&self) -> (r: Option<&str>)
        ensures
            match r {
                Some(s) => yas_str(self@) == Some(s@),
                None => yas_str(self@) is None,
            },
    {
        match self.untag() {
            Yaml::Str(s) => Some(s.as_str()),
            _ => None,
        }
    }

    /// The entries of a mapping, tags looked through.
    pub fn as_mapping(&self) -> (r: Option<&Vec<(Yaml, Yaml)>>)
        ensures
            match r {
                Some(m) => yas_map(self@) == Some(yentry_views(m@)),
                None => yas_map(self@) is None,
            },
    {
        match self.untag() {
            Yaml::Mapping(m) => Some(m),
            _ => None,
        }
    }

    /// The entry under the string `key`, tags looked through.
    pub fn get(&self, key: &str) -> (r: Option<&Yaml>)
        ensures
            match r {
                Some(x) => yget(self@, key@) == Some(x@),
                None => yget(self@, key@) is None,
            },
    {
        match self.as_mapping() {
            Some(m) => entry_in(m, key),
            None => None,
        }
    }
}

/// The value of the first entry of `m` whose key is the string `key`.
pub fn entry_in<'a>(m: &'a Vec<(Yaml, Yaml)>, key: &str) -> (r: Option<&'a Yaml>)
    ensures
        match r {
            Some(x) => entry_for(yentry_views(m@), key@) == Some(x@),
            None => entry_for(yentry_views(m@), key@) is None,
        },
{
    let ghost es = yentry_views(m@);
    proof {
        lemma_yentry_views(m@);
    }
    let mut i: usize = 0;
    assert(es.subrange(0, es.len() as int) =~= es);
    while i < m.len()
        invariant
            i <= m.len(),
            es == yentry_views(m@),
            es.len() == m@.len(),
            forall|k: int| 0 <= k < m@.len() ==> #[trigger] es[k] == (m@[k].0@, m@[k].1@),
            entry_for(es, key@) == entry_for(es.subrange(i as int, es.len() as int), key@),
        decreases m.len() - i,
    {
        let ghost rest = es.subrange(i as int, es.len() as int);
        assert(rest[0] == es[i as int]);
        if m[i].0.is_str(key) {
            return Some(&m[i].1);
        }
        assert(rest.drop_first() =~= es.subrange(i + 1, es.len() as int));
        i = i + 1;
    }
    None
}

/// Whether `m` has an entry under the string `key`.
pub fn has_key(m: &Vec<(Yaml, Yaml)>, key: &str) -> (r: bool)
    ensures
        r == (entry_for(yentry_views(m@), key@) is Some),
{
    match entry_in(m, key) {
        Some(_) => true,
        None => false,
    }
}

} // verus!
