use vstd::prelude::*;

use crate::text::{split_at_char, split_commas, views};
use crate::token::{Token, TokenView};

verus! {

/// A named attribute of a token that can be read as an optional string.
#[derive(Clone, Copy, Debug, PartialEq, Eq, Structural)]
pub enum Layer {
    Form,
    Lemma,
    CPos,
    Pos,
    HeadRel,
    PHeadRel,
}

/// A layer name that the registry does not know.
#[derive(Clone, Debug)]
pub struct UnknownLayer {
    pub name: String,
}

impl Layer {
    /// The name under which the layer is registered.
    pub open spec fn spec_name(self) -> Seq<char> {
        match self {
            Layer::Form => seq!['f', 'o', 'r', 'm'],
            Layer::Lemma => seq!['l', 'e', 'm', 'm', 'a'],
            Layer::CPos => seq!['c', 'p', 'o', 's'],
            Layer::Pos => seq!['p', 'o', 's'],
            Layer::HeadRel => seq!['h', 'e', 'a', 'd', 'r', 'e', 'l'],
            Layer::PHeadRel => seq!['p', 'h', 'e', 'a', 'd', 'r', 'e', 'l'],
        }
    }

    /// The value of this layer in a token; `None` where the layer is absent.
    pub open spec fn spec_value(self, t: TokenView) -> Option<Seq<char>> {
        match self {
            Layer::Form => t.form,
            Layer::Lemma => t.lemma,
            Layer::CPos => t.cpos,
            Layer::Pos => t.pos,
            Layer::HeadRel => t.head_rel,
            Layer::PHeadRel => t.p_head_rel,
        }
    }

    /// Reads this layer of `t`, borrowing the value from the token.
    pub fn value<'a>(&self, t: &'a Token) -> (r: Option<&'a str>)
        ensures
            r.deep_view() == self.spec_value(t@),
    {
        let field = match self {
            Layer::Form => &t.form,
            Layer::Lemma => &t.lemma,
            Layer::CPos => &t.cpos,
            Layer::Pos => &t.pos,
            Layer::HeadRel => &t.head_rel,
            Layer::PHeadRel => &t.p_head_rel,
        };
        match field {
            Some(s) => Some(s.as_str()),
            None => None,
        }
    }

    /// The registered name of this layer.
    pub fn name(&self) -> (r: &'static str)
        ensures
            r@ == self.spec_name(),
    {
        proof {
            reveal_strlit("form");
            reveal_strlit("lemma");
            reveal_strlit("cpos");
            reveal_strlit("pos");
            reveal_strlit("headrel");
            reveal_strlit("pheadrel");
        }
        match self {
            Layer::Form => "form",
            Layer::Lemma => "lemma",
            Layer::CPos => "cpos",
            Layer::Pos => "pos",
            Layer::HeadRel => "headrel",
            Layer::PHeadRel => "pheadrel",
        }
    }
}

/// Every layer of the registry, in a fixed order.
pub open spec fn all_layers() -> Seq<Layer> {
    seq![Layer::Form, Layer::Lemma, Layer::CPos, Layer::Pos, Layer::HeadRel, Layer::PHeadRel]
}

/// The layer registered under `name`, if any. Names are case-sensitive.
pub open spec fn layer_named(name: Seq<char>) -> Option<Layer> {
    if name == Layer::Form.spec_name() {
        Some(Layer::Form)
    } else if name == Layer::Lemma.spec_name() {
        Some(Layer::Lemma)
    } else if name == Layer::CPos.spec_name() {
        Some(Layer::CPos)
    } else if name == Layer::Pos.spec_name() {
        Some(Layer::Pos)
    } else if name == Layer::HeadRel.spec_name() {
        Some(Layer::HeadRel)
    } else if name == Layer::PHeadRel.spec_name() {
        Some(Layer::PHeadRel)
    } else {
        None
    }
}

/// Each layer is found under its own name, and under no other.
pub proof fn lemma_registry_names(l: Layer, name: Seq<char>)
    ensures
        layer_named(l.spec_name()) == Some(l),
        layer_named(name) == Some(l) ==> name == l.spec_name(),
{
    assert(Layer::Form.spec_name() != Layer::Lemma.spec_name());
    assert(Layer::Form.spec_name() != Layer::CPos.spec_name());
    assert(Layer::Form.spec_name()[0] != Layer::Pos.spec_name()[0]);
    assert(Layer::Form.spec_name() != Layer::HeadRel.spec_name());
    assert(Layer::Form.spec_name() != Layer::PHeadRel.spec_name());
    assert(Layer::Lemma.spec_name() != Layer::CPos.spec_name());
    assert(Layer::Lemma.spec_name() != Layer::Pos.spec_name());
    assert(Layer::Lemma.spec_name() != Layer::HeadRel.spec_name());
    assert(Layer::Lemma.spec_name() != Layer::PHeadRel.spec_name());
    assert(Layer::CPos.spec_name() != Layer::Pos.spec_name());
    assert(Layer::CPos.spec_name() != Layer::HeadRel.spec_name());
    assert(Layer::CPos.spec_name() != Layer::PHeadRel.spec_name());
    assert(Layer::Pos.spec_name() != Layer::HeadRel.spec_name());
    assert(Layer::Pos.spec_name() != Layer::PHeadRel.spec_name());
    assert(Layer::HeadRel.spec_name()[0] != Layer::PHeadRel.spec_name()[0]);
}

/// Whether two strings hold the same characters.
pub(crate) fn same_text(a: &str, b: &str) -> (r: bool)
    ensures
        r == (a@ == b@),
{
    String::from_str(a) == String::from_str(b)
}

/// Looks up the layer registered under `name`.
pub fn resolve(name: &str) -> (r: Result<Layer, UnknownLayer>)
    ensures
        match r {
            Ok(l) => layer_named(name@) == Some(l) && l.spec_name() == name@,
            Err(e) => layer_named(name@) is None && e.name@ == name@,
        },
{
    let candidates = [Layer::Form, Layer::Lemma, Layer::CPos, Layer::Pos, Layer::HeadRel, Layer::PHeadRel];
    let mut i: usize = 0;
    while i < 6
        invariant
            0 <= i <= 6,
            candidates@ == all_layers(),
            forall|j: int| 0 <= j < i ==> name@ != (#[trigger] all_layers()[j]).spec_name(),
        decreases 6 - i,
    {
        let l = candidates[i];
        if same_text(name, l.name()) {
            proof {
                lemma_registry_names(l, name@);
            }
            return Ok(l);
        }
        i = i + 1;
    }
    assert(name@ != all_layers()[0].spec_name());
    assert(name@ != all_layers()[1].spec_name());
    assert(name@ != all_layers()[2].spec_name());
    assert(name@ != all_layers()[3].spec_name());
    assert(name@ != all_layers()[4].spec_name());
    assert(name@ != all_layers()[5].spec_name());
    Err(UnknownLayer { name: String::from_str(name) })
}

/// Whether resolving each of `names` in turn gives `r`: every layer when all
/// names are known, else the first unknown name.
pub open spec fn resolves_to(names: Seq<Seq<char>>, r: Result<Vec<Layer>, UnknownLayer>) -> bool {
    match r {
        Ok(v) => v@.len() == names.len() && forall|k: int|
            0 <= k < names.len() ==> layer_named(#[trigger] names[k]) == Some(v@[k]),
        Err(e) => exists|k: int|
            0 <= k < names.len() && layer_named(#[trigger] names[k]) is None && e.name@ == names[k]
                && forall|j: int| 0 <= j < k ==> layer_named(#[trigger] names[j]) is Some,
    }
}

/// The layers named by a comma-separated list, or `default` when no list is
/// given. Fails with the first name that the registry does not know.
pub fn parse_layers(list: Option<&str>, default: Vec<Layer>) -> (r: Result<Vec<Layer>, UnknownLayer>)
    ensures
        list is None ==> r == Ok::<Vec<Layer>, UnknownLayer>(default),
        list is Some ==> resolves_to(split_at_char(list->Some_0@, ','), r),
{
    let s = match list {
        None => {
            return Ok(default);
        },
        Some(s) => s,
    };
    let names = split_commas(s);
    let mut layers: Vec<Layer> = Vec::new();
    let mut i: usize = 0;
    while i < names.len()
        invariant
            0 <= i <= names.len(),
            list == Some(s),
            views(names@) == split_at_char(s@, ','),
            layers@.len() == i,
            forall|k: int| 0 <= k < i ==> layer_named(#[trigger] views(names@)[k]) == Some(layers@[k]),
        decreases names.len() - i,
    {
        match resolve(names[i].as_str()) {
            Ok(l) => {
                layers.push(l);
            },
            Err(e) => {
                assert(views(names@)[i as int] == names@[i as int]@);
                assert(forall|j: int| 0 <= j < i ==> layer_named(#[trigger] views(names@)[j]) is Some);
                return Err(e);
            },
        }
        i = i + 1;
    }
    Ok(layers)
}

} // verus!
