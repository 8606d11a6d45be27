//! YAML values carried in node frontmatter.
use vstd::prelude::*;

use crate::query::join_seqs;
use crate::text::{extend_chars, chars_of, push_str, string_of};

verus! {

/// A YAML value as it appears in frontmatter. Numbers keep their textual form.
#[derive(Debug, PartialEq, Eq)]
pub enum YamlValue {
    Null,
    Bool(bool),
    Number(String),
    String(String),
    Sequence(Vec<YamlValue>),
    Mapping(Vec<(YamlValue, YamlValue)>),
    Tagged(String, Box<YamlValue>),
}

/// Abstract form of a [`YamlValue`].
pub enum YamlView {
    Null,
    Bool(bool),
    Number(Seq<char>),
    Str(Seq<char>),
    Sequence(Seq<YamlView>),
    Mapping(Seq<(YamlView, YamlView)>),
    Tagged(Seq<char>, Box<YamlView>),
}

pub open spec fn yaml_view(v: YamlValue) -> YamlView
    decreases v,
{
    match v {
        YamlValue::Null => YamlView::Null,
        YamlValue::Bool(b) => YamlView::Bool(b),
        YamlValue::Number(n) => YamlView::Number(n@),
        YamlValue::String(s) => YamlView::Str(s@),
        YamlValue::Sequence(items) => YamlView::Sequence(
            Seq::new(items@.len(), |i: int| if 0 <= i < items@.len() { yaml_view(items@[i]) } else { YamlView::Null }),
        ),
        YamlValue::Mapping(pairs) => YamlView::Mapping(
            Seq::new(pairs@.len(), |i: int| if 0 <= i < pairs@.len() { (yaml_view(pairs@[i].0), yaml_view(pairs@[i].1)) } else { (YamlView::Null, YamlView::Null) }),
        ),
        YamlValue::Tagged(t, inner) => YamlView::Tagged(t@, Box::new(yaml_view(*inner))),
    }
}


impl View for YamlValue {
    type V = YamlView;

    open spec fn view(&self) -> YamlView {
        yaml_view(*self)
    }
}

impl YamlValue {
    /// A copy with the same abstract value.
    #[verifier::loop_isolation(false)]
    pub fn duplicate(&self) -> (r: YamlValue)
        ensures
            r@ == self@,
        decreases self,
    {
        match self {
            YamlValue::Null => YamlValue::Null,
            YamlValue::Bool(b) => YamlValue::Bool(*b),
            YamlValue::Number(n) => YamlValue::Number(n.clone()),
            YamlValue::String(s) => YamlValue::String(s.clone()),
            YamlValue::Sequence(items) => {
                let mut out: Vec<YamlValue> = Vec::new();
                let mut i: usize = 0;
                while i < items.len()
                    invariant
                        i <= items.len(),
                        out@.len() == i,
                        forall|j: int| 0 <= j < i ==> yaml_view(#[trigger] out@[j]) == yaml_view(items@[j]),
                    decreases items.len() - i,
                {
                    proof {
                        assert(decreases_to!(*items => items@));
                        assert(decreases_to!(items@ => items@[i as int]));
                    }
                    out.push(items[i].duplicate());
                    i = i + 1;
                }
                let r = YamlValue::Sequence(out);
                assert(yaml_view(r) =~= yaml_view(*self)) by {
                    if let YamlView::Sequence(a) = yaml_view(r) {
                        if let YamlView::Sequence(b) = yaml_view(*self) {
                            assert(a =~= b);
                        }
                    }
                }
                r
            },
            YamlValue::Mapping(pairs) => {
                let mut out: Vec<(YamlValue, YamlValue)> = Vec::new();
                let mut i: usize = 0;
                while i < pairs.len()
                    invariant
                        i <= pairs.len(),
                        out@.len() == i,
                        forall|j: int|
                            0 <= j < i ==> yaml_view((#[trigger] out@[j]).0) == yaml_view(pairs@[j].0)
                                && yaml_view(out@[j].1) == yaml_view(pairs@[j].1),
                    decreases pairs.len() - i,
                {
                    proof {
                        assert(decreases_to!(*pairs => pairs@));
                        assert(decreases_to!(pairs@ => pairs@[i as int]));
                        assert(decreases_to!(pairs@[i as int] => pairs@[i as int].0));
                        assert(decreases_to!(pairs@[i as int] => pairs@[i as int].1));
                    }
                    let k = pairs[i].0.duplicate();
                    let v = pairs[i].1.duplicate();
                    out.push((k, v));
                    i = i + 1;
                }
                let r = YamlValue::Mapping(out);
                assert(yaml_view(r) =~= yaml_view(*self)) by {
                    if let YamlView::Mapping(a) = yaml_view(r) {
                        if let YamlView::Mapping(b) = yaml_view(*self) {
                            assert(a =~= b);
                        }
                    }
                }
                r
            },
            YamlValue::Tagged(t, inner) => {
                let d = inner.duplicate();
                YamlValue::Tagged(t.clone(), Box::new(d))
            },
        }
    }
}


/// A value with its tags removed (`Value::untag_ref`).
pub open spec fn untagged(v: YamlView) -> YamlView
    decreases v,
{
    match v {
        YamlView::Tagged(_, inner) => untagged(*inner),
        _ => v,
    }
}

/// `Value::as_bool`.
pub open spec fn as_bool_spec(v: YamlView) -> Option<bool> {
    match untagged(v) {
        YamlView::Bool(b) => Some(b),
        _ => None,
    }
}

/// `Value::as_str`.
pub open spec fn as_str_spec(v: YamlView) -> Option<Seq<char>> {
    match untagged(v) {
        YamlView::Str(s) => Some(s),
        _ => None,
    }
}

/// Text searched for a frontmatter value: scalars as written, sequences and mappings
/// with their parts separated by spaces, null as nothing.
pub open spec fn search_text(v: YamlView) -> Seq<char>
    decreases v,
{
    match v {
        YamlView::Null => seq![],
        YamlView::Bool(b) => if b {
            "true"@
        } else {
            "false"@
        },
        YamlView::Number(n) => n,
        YamlView::Str(s) => s,
        YamlView::Sequence(items) => items_text(items),
        YamlView::Mapping(pairs) => pairs_text(pairs),
        YamlView::Tagged(_, inner) => search_text(*inner),
    }
}

/// Searchable texts of `items`, separated by spaces.
pub open spec fn items_text(items: Seq<YamlView>) -> Seq<char>
    decreases items,
{
    if items.len() == 0 {
        seq![]
    } else if items.len() == 1 {
        search_text(items[0])
    } else {
        items_text(items.subrange(0, items.len() - 1)) + seq![' '] + search_text(
            items[items.len() - 1],
        )
    }
}

/// Searchable texts of key/value pairs, each as key, space, value, separated by spaces.
pub open spec fn pairs_text(pairs: Seq<(YamlView, YamlView)>) -> Seq<char>
    decreases pairs,
{
    if pairs.len() == 0 {
        seq![]
    } else if pairs.len() == 1 {
        search_text(pairs[0].0) + seq![' '] + search_text(pairs[0].1)
    } else {
        pairs_text(pairs.subrange(0, pairs.len() - 1)) + seq![' '] + search_text(
            pairs[pairs.len() - 1].0,
        ) + seq![' '] + search_text(pairs[pairs.len() - 1].1)
    }
}

/// Tags named by a `tags` value: a string, or the strings of a sequence.
pub open spec fn tags_spec(v: YamlView) -> Seq<Seq<char>> {
    match v {
        YamlView::Str(s) => seq![s],
        YamlView::Sequence(items) => strings_of_items(items),
        _ => seq![],
    }
}

/// The items that are strings (after removing tags), in order.
pub open spec fn strings_of_items(items: Seq<YamlView>) -> Seq<Seq<char>>
    decreases items.len(),
{
    if items.len() == 0 {
        seq![]
    } else {
        let prev = strings_of_items(items.drop_last());
        match as_str_spec(items.last()) {
            Some(s) => prev.push(s),
            None => prev,
        }
    }
}

impl YamlValue {
    /// The value with its tags removed.
    pub fn untag(&self) -> (r: &YamlValue)
        ensures
            r@ == untagged(self@),
        decreases self,
    {
        match self {
            YamlValue::Tagged(_, inner) => inner.untag(),
            _ => self,
        }
    }

    pub fn as_bool(&self) -> (r: Option<bool>)
        ensures
            r == as_bool_spec(self@),
    {
        match self.untag() {
            YamlValue::Bool(b) => Some(*b),
            _ => None,
        }
    }

    pub fn as_str(&self) -> (r: Option<&str>)
        ensures
            match as_str_spec(self@) {
                Some(s) => r matches Some(t) && t@ == s,
                None => r is None,
            },
    {
        match self.untag() {
            YamlValue::String(s) => Some(s.as_str()),
            _ => None,
        }
    }

    /// The searchable text of the value, as characters.
    #[verifier::loop_isolation(false)]
    pub fn search_chars(&self) -> (r: Vec<char>)
        ensures
            r@ == search_text(self@),
        decreases self,
    {
        let mut out: Vec<char> = Vec::new();
        let ghost start = out@;
        assert(start =~= Seq::<char>::empty());
        match self {
            YamlValue::Null => {
                assert(yaml_view(*self) == YamlView::Null);
                assert(out@ =~= search_text(self@));
            },
            YamlValue::Bool(b) => {
                if *b {
                    push_str(&mut out, "true");
                } else {
                    push_str(&mut out, "false");
                }
                assert(out@ =~= search_text(self@));
            },
            YamlValue::Number(n) => {
                push_str(&mut out, n.as_str());
                assert(out@ =~= search_text(self@));
            },
            YamlValue::String(s) => {
                push_str(&mut out, s.as_str());
                assert(out@ =~= search_text(self@));
            },
            YamlValue::Sequence(items) => {
                let ghost vs = match yaml_view(*self) {
                    YamlView::Sequence(vs) => vs,
                    _ => Seq::empty(),
                };
                assert(vs.len() == items@.len());
                let mut i: usize = 0;
                assert(vs.subrange(0, 0) =~= Seq::<YamlView>::empty());
                while i < items.len()
                    invariant
                        i <= items.len(),
                        vs.len() == items@.len(),
                        forall|j: int| 0 <= j < vs.len() ==> vs[j] == yaml_view(#[trigger] items@[j]),
                        out@ == items_text(vs.subrange(0, i as int)),
                    decreases items.len() - i,
                {
                    proof {
                        assert(decreases_to!(*items => items@));
                        assert(decreases_to!(items@ => items@[i as int]));
                    }
                    if i > 0 {
                        out.push(' ');
                    }
                    let part = items[i].search_chars();
                    extend_chars(&mut out, part.as_slice());
                    i = i + 1;
                    let ghost t = vs.subrange(0, i as int);
                    assert(t.subrange(0, t.len() - 1) =~= vs.subrange(0, i - 1));
                    assert(t[t.len() - 1] == vs[i - 1]);
                    if i == 1 {
                        assert(out@ =~= items_text(t));
                    } else {
                        assert(out@ =~= items_text(t));
                    }
                }
                assert(vs.subrange(0, items.len() as int) =~= vs);
            },
            YamlValue::Mapping(pairs) => {
                let ghost vs = match yaml_view(*self) {
                    YamlView::Mapping(vs) => vs,
                    _ => Seq::empty(),
                };
                assert(vs.len() == pairs@.len());
                let mut i: usize = 0;
                assert(vs.subrange(0, 0) =~= Seq::<(YamlView, YamlView)>::empty());
                while i < pairs.len()
                    invariant
                        i <= pairs.len(),
                        vs.len() == pairs@.len(),
                        forall|j: int|
                            0 <= j < vs.len() ==> vs[j] == (yaml_view((#[trigger] pairs@[j]).0), yaml_view(pairs@[j].1)),
                        out@ == pairs_text(vs.subrange(0, i as int)),
                    decreases pairs.len() - i,
                {
                    proof {
                        assert(decreases_to!(*pairs => pairs@));
                        assert(decreases_to!(pairs@ => pairs@[i as int]));
                        assert(decreases_to!(pairs@[i as int] => pairs@[i as int].0));
                        assert(decreases_to!(pairs@[i as int] => pairs@[i as int].1));
                    }
                    if i > 0 {
                        out.push(' ');
                    }
                    let k = pairs[i].0.search_chars();
                    extend_chars(&mut out, k.as_slice());
                    out.push(' ');
                    let v = pairs[i].1.search_chars();
                    extend_chars(&mut out, v.as_slice());
                    i = i + 1;
                    let ghost t = vs.subrange(0, i as int);
                    assert(t.subrange(0, t.len() - 1) =~= vs.subrange(0, i - 1));
                    assert(t[t.len() - 1] == vs[i - 1]);
                    assert(out@ =~= pairs_text(t));
                }
                assert(vs.subrange(0, pairs.len() as int) =~= vs);
            },
            YamlValue::Tagged(_, inner) => {
                out = inner.search_chars();
                assert(out@ =~= search_text(self@));
            },
        }
        out
    }

    /// Searchable text of the value.
    pub fn search_text(&self) -> (r: String)
        ensures
            r@ == search_text(self@),
    {
        let out = self.search_chars();
        string_of(out.as_slice())
    }

    /// Tags named by the value (see [`tags_spec`]).
    pub fn tags(&self) -> (r: Vec<String>)
        ensures
            r@.map_values(|s: String| s@) == tags_spec(self@),
    {
        let mut out: Vec<String> = Vec::new();
        match self {
            YamlValue::String(s) => {
                out.push(s.clone());
                assert(out@.map_values(|s: String| s@) =~= seq![s@]);
            },
            YamlValue::Sequence(items) => {
                let ghost iv = Seq::new(items@.len(), |i: int| if 0 <= i < items@.len() { yaml_view(items@[i]) } else { YamlView::Null });
                let mut i: usize = 0;
                assert(out@.map_values(|s: String| s@) =~= strings_of_items(iv.take(0)));
                while i < items.len()
                    invariant
                        i <= items.len(),
                        iv == Seq::new(items@.len(), |i: int| if 0 <= i < items@.len() { yaml_view(items@[i]) } else { YamlView::Null }),
                        out@.map_values(|s: String| s@) == strings_of_items(iv.take(i as int)),
                    decreases items.len() - i,
                {
                    let ghost before = out@.map_values(|s: String| s@);
                    assert(iv.take(i + 1).drop_last() =~= iv.take(i as int));
                    assert(iv.take(i + 1).last() == items@[i as int]@);
                    match items[i].as_str() {
                        Some(t) => {
                            out.push(t.to_owned());
                            assert(out@.map_values(|s: String| s@) =~= before.push(t@));
                        },
                        None => {},
                    }
                    i = i + 1;
                }
                assert(iv.take(items.len() as int) =~= iv);
                proof {
                    if let YamlView::Sequence(vs) = yaml_view(*self) {
                        assert(vs =~= iv);
                    }
                }
            },
            _ => {
                assert(out@.map_values(|s: String| s@) =~= Seq::<Seq<char>>::empty());
            },
        }
        out
    }
}

} // verus!
