use vstd::prelude::*;

verus! {

/// One feature of a token: a name and an optional value. A feature without a
/// value is a flag.
pub type Feature = (String, Option<String>);

/// The mathematical value of a feature list: names and optional values, in order.
pub type FeaturesView = Seq<(Seq<char>, Option<Seq<char>>)>;

/// A token of a sentence. Every layer is optional: an absent layer is written
/// `_` in the corpus format, and is distinct from an empty string.
#[derive(Clone, Debug)]
pub struct Token {
    pub form: Option<String>,
    pub lemma: Option<String>,
    pub cpos: Option<String>,
    pub pos: Option<String>,
    pub features: Option<Vec<Feature>>,
    pub head: Option<usize>,
    pub head_rel: Option<String>,
    pub p_head: Option<usize>,
    pub p_head_rel: Option<String>,
}

/// The mathematical value of a token.
pub struct TokenView {
    pub form: Option<Seq<char>>,
    pub lemma: Option<Seq<char>>,
    pub cpos: Option<Seq<char>>,
    pub pos: Option<Seq<char>>,
    pub features: Option<FeaturesView>,
    pub head: Option<usize>,
    pub head_rel: Option<Seq<char>>,
    pub p_head: Option<usize>,
    pub p_head_rel: Option<Seq<char>>,
}

impl View for Token {
    type V = TokenView;

    open spec fn view(&self) -> TokenView {
        TokenView {
            form: self.form.deep_view(),
            lemma: self.lemma.deep_view(),
            cpos: self.cpos.deep_view(),
            pos: self.pos.deep_view(),
            features: self.features.deep_view(),
            head: self.head,
            head_rel: self.head_rel.deep_view(),
            p_head: self.p_head,
            p_head_rel: self.p_head_rel.deep_view(),
        }
    }
}

/// The tokens of a sentence, each as its mathematical value.
pub open spec fn sentence_view(s: Seq<Token>) -> Seq<TokenView> {
    s.map_values(|t: Token| t@)
}

impl Token {
    /// A token with the given form and every other layer absent.
    pub fn new(form: &str) -> (r: Token)
        ensures
            r@ == (TokenView {
                form: Some(form@),
                lemma: None,
                cpos: None,
                pos: None,
                features: None,
                head: None,
                head_rel: None,
                p_head: None,
                p_head_rel: None,
            }),
    {
        Token {
            form: Some(String::from_str(form)),
            lemma: None,
            cpos: None,
            pos: None,
            features: None,
            head: None,
            head_rel: None,
            p_head: None,
            p_head_rel: None,
        }
    }
}

} // verus!
