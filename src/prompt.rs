//! Prompts: one or more items of text or image.

use base64::Engine;
use vstd::prelude::*;

verus! {

/// One item of a prompt. Which modalities a model accepts depends on the model.
#[derive(Debug, Clone, PartialEq, Eq)]
pub enum Modality {
    /// Text, the only modality of pure language models.
    Text { data: String },
    /// An image, base64-encoded.
    Image { data: String },
}

/// A prompt item as plain values.
pub ghost enum ModalityView {
    Text(Seq<char>),
    Image(Seq<char>),
}

impl View for Modality {
    type V = ModalityView;

    open spec fn view(&self) -> ModalityView {
        match self {
            Modality::Text { data } => ModalityView::Text(data@),
            Modality::Image { data } => ModalityView::Image(data@),
        }
    }
}

/// A prompt passed to the model: usually one text item, possibly several items of
/// different modalities.
#[derive(Debug, Clone, PartialEq, Eq)]
pub struct Prompt(pub Vec<Modality>);

/// The views of a list of prompt items.
pub open spec fn items_view(items: Seq<Modality>) -> Seq<ModalityView> {
    items.map_values(|m: Modality| m@)
}

impl View for Prompt {
    type V = Seq<ModalityView>;

    open spec fn view(&self) -> Seq<ModalityView> {
        items_view(self.0@)
    }
}

/// The items with every run of consecutive text items merged into one, the texts joined
/// by `sep`.
pub open spec fn joined(items: Seq<ModalityView>, sep: Seq<char>) -> Seq<ModalityView>
    decreases items.len(),
{
    if items.len() == 0 {
        Seq::empty()
    } else {
        let init = joined(items.drop_last(), sep);
        match (init.len() > 0, items.last()) {
            (true, ModalityView::Text(b)) => match init.last() {
                ModalityView::Text(a) => init.drop_last().push(ModalityView::Text(a + sep + b)),
                _ => init.push(items.last()),
            },
            _ => init.push(items.last()),
        }
    }
}

/// The character of a six-bit value in the standard base64 alphabet.
pub open spec fn base64_char(v: nat) -> char {
    if v < 26 {
        ((v + 65) as u8) as char
    } else if v < 52 {
        ((v + 71) as u8) as char
    } else if v < 62 {
        ((v - 4) as u8) as char
    } else if v == 62 {
        '+'
    } else {
        '/'
    }
}

/// Base64 encoding with the standard alphabet and padding: each group of three bytes
/// becomes four characters; a last group of one or two bytes is padded with `=`.
pub open spec fn base64_of(b: Seq<u8>) -> Seq<char>
    decreases b.len(),
{
    if b.len() == 0 {
        Seq::empty()
    } else if b.len() == 1 {
        seq![base64_char(b[0] as nat / 4), base64_char((b[0] as nat % 4) * 16), '=', '=']
    } else if b.len() == 2 {
        seq![
            base64_char(b[0] as nat / 4),
            base64_char((b[0] as nat % 4) * 16 + b[1] as nat / 16),
            base64_char((b[1] as nat % 16) * 4),
            '=',
        ]
    } else {
        seq![
            base64_char(b[0] as nat / 4),
            base64_char((b[0] as nat % 4) * 16 + b[1] as nat / 16),
            base64_char((b[1] as nat % 16) * 4 + b[2] as nat / 64),
            base64_char(b[2] as nat % 64),
        ] + base64_of(b.skip(3))
    }
}

/// Relies on `base64::engine::general_purpose::STANDARD.encode`: the padded encoding with
/// the standard alphabet.
#[verifier::external_body]
fn encode_base64(b: &[u8]) -> (r: String)
    requires
        b@.len() <= usize::MAX / 2,
    ensures
        r@ == base64_of(b@),
{
    base64::engine::general_purpose::STANDARD.encode(b)
}

impl Modality {
    /// A text item.
    pub fn from_text(text: &str) -> (r: Modality)
        ensures
            r@ == ModalityView::Text(text@),
    {
        Modality::Text { data: String::from_str(text) }
    }

    /// An image item from the binary representation of an image the service accepts
    /// (PNG always is); the model only looks at square pictures.
    pub fn from_image_bytes(image: &[u8]) -> (r: Modality)
        requires
            image@.len() <= usize::MAX / 2,
        ensures
            r@ == ModalityView::Image(base64_of(image@)),
    {
        Modality::Image { data: encode_base64(image) }
    }

    /// An item with the same contents.
    pub fn borrow(&self) -> (r: Modality)
        ensures
            r@ == self@,
    {
        match self {
            Modality::Text { data } => Modality::Text { data: String::from_str(data.as_str()) },
            Modality::Image { data } => Modality::Image { data: String::from_str(data.as_str()) },
        }
    }
}

impl Prompt {
    /// A prompt of one text item.
    pub fn from_text(text: &str) -> (r: Prompt)
        ensures
            r@ == seq![ModalityView::Text(text@)],
    {
        let mut items = Vec::new();
        items.push(Modality::from_text(text));
        proof {
            assert(items_view(items@) =~= seq![ModalityView::Text(text@)]);
        }
        Prompt(items)
    }

    /// A prompt of the given items, of any modality.
    pub fn from_vec(items: Vec<Modality>) -> (r: Prompt)
        ensures
            r.0 == items,
    {
        Prompt(items)
    }

    /// A prompt with the same contents.
    pub fn borrow(&self) -> (r: Prompt)
        ensures
            r@ == self@,
    {
        let mut items: Vec<Modality> = Vec::new();
        let mut i: usize = 0;
        while i < self.0.len()
            invariant
                i <= self.0@.len(),
                items_view(items@) == items_view(self.0@.take(i as int)),
            decreases self.0@.len() - i,
        {
            let ghost prev = items@;
            items.push(self.0[i].borrow());
            proof {
                assert(items_view(items@) =~= items_view(prev).push(self.0@[i as int]@));
                assert(self.0@.take(i + 1) =~= self.0@.take(i as int).push(self.0@[i as int]));
                assert(items_view(self.0@.take(i + 1)) =~= items_view(self.0@.take(i as int)).push(
                    self.0@[i as int]@,
                ));
            }
            i += 1;
        }
        proof {
            assert(self.0@.take(i as int) =~= self.0@);
        }
        Prompt(items)
    }

    /// Merges every run of consecutive text items into one, joining the texts with
    /// `separator` (empty to concatenate). Text tokenised in pieces may give other tokens
    /// than the same text tokenised whole.
    pub fn join_consecutive_text_items(&mut self, separator: &str)
        ensures
            final(self)@ == joined(old(self)@, separator@),
    {
        let ghost orig = self.0@;
        let mut merged: Vec<Modality> = Vec::new();
        let mut i: usize = 0;
        proof {
            assert(items_view(orig.take(0)) =~= Seq::<ModalityView>::empty());
            assert(items_view(merged@) =~= Seq::<ModalityView>::empty());
        }
        while i < self.0.len()
            invariant
                self.0@ == orig,
                i <= orig.len(),
                items_view(merged@) == joined(items_view(orig.take(i as int)), separator@),
            decreases orig.len() - i,
        {
            let ghost before = items_view(orig.take(i as int));
            let ghost prev = merged@;
            proof {
                assert(items_view(orig.take(i + 1)) =~= before.push(orig[i as int]@));
                assert(items_view(orig.take(i + 1)).drop_last() =~= before);
            }
            let item = self.0[i].borrow();
            match item {
                Modality::Text { data } => {
                    let last = merged.pop();
                    match last {
                        Some(Modality::Text { data: mut text }) => {
                            text.append(separator);
                            text.append(data.as_str());
                            merged.push(Modality::Text { data: text });
                            proof {
                                assert(items_view(prev) =~= items_view(prev.drop_last()).push(
                                    prev.last()@,
                                ));
                                assert(items_view(merged@) =~= items_view(prev.drop_last()).push(
                                    ModalityView::Text(prev.last()->Text_data@ + separator@ + data@),
                                ));
                            }
                        },
                        Some(other) => {
                            merged.push(other);
                            merged.push(Modality::Text { data });
                            proof {
                                assert(merged@ =~= prev.push(Modality::Text { data }));
                                assert(items_view(merged@) =~= items_view(prev).push(
                                    ModalityView::Text(data@),
                                ));
                            }
                        },
                        None => {
                            merged.push(Modality::Text { data });
                            proof {
                                assert(items_view(merged@) =~= items_view(prev).push(
                                    ModalityView::Text(data@),
                                ));
                            }
                        },
                    }
                },
                Modality::Image { data } => {
                    merged.push(Modality::Image { data });
                    proof {
                        assert(items_view(merged@) =~= items_view(prev).push(
                            ModalityView::Image(data@),
                        ));
                    }
                },
            }
            i += 1;
        }
        proof {
            assert(orig.take(orig.len() as int) =~= orig);
        }
        self.0 = merged;
    }
}

} // verus!
