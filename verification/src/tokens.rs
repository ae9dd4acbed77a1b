//! Turning texts into token rows.

use std::sync::mpsc;
use std::sync::Arc;
use tokenizers::{PostProcessor, Tokenizer, TruncationParams};
use tokio::runtime::Builder;
use vstd::prelude::*;

verus! {

/// Texts are truncated to this many tokens, the model's ceiling.
pub const MAX_LEN: usize = 8192;

/// A `tokenizers` tokenizer, as an opaque value.
#[verifier::external_type_specification]
#[verifier::external_body]
pub struct ExTokenizer(Tokenizer);

/// Whether `Tokenizer::from_str` returns a tokenizer for this text. On others it
/// returns an error or panics.
pub uninterp spec fn is_definition(definition: Seq<char>) -> bool;

/// The number of special tokens that the tokenizer of this definition adds to a text:
/// what `PostProcessor::added_tokens` gives for a single sequence.
pub uninterp spec fn special_tokens(definition: Seq<char>) -> nat;

/// Whether the tokenizer of this definition, truncating to `limit` tokens and not
/// padding, can encode `text` as this row of ids and attention mask, or, with `None`,
/// return an error or panic on it. A relation and not a function: a definition can ask
/// for random merges (`dropout`) or sampled segmentations.
pub uninterp spec fn may_encode(
    definition: Seq<char>,
    limit: nat,
    add_special_tokens: bool,
    text: Seq<char>,
    row: Option<(Seq<u32>, Seq<u32>)>,
) -> bool;

/// One text's token ids and attention mask, unpadded.
pub struct TokenRow {
    pub ids: Vec<u32>,
    pub mask: Vec<u32>,
}

impl View for TokenRow {
    type V = (Seq<u32>, Seq<u32>);

    open spec fn view(&self) -> (Seq<u32>, Seq<u32>) {
        (self.ids@, self.mask@)
    }
}

/// A tokenizer together with what it was read from and how it has been set up. Only
/// the calls below touch it, so the two agree.
struct Setup {
    tokenizer: Arc<Tokenizer>,
    /// The text it was read from.
    definition: Ghost<Seq<char>>,
    /// The number of tokens it truncates to, once that has been set here.
    limit: Ghost<Option<nat>>,
    /// Whether it is known not to pad.
    unpadded: Ghost<bool>,
}

impl Setup {
    /// Calls `Tokenizer::from_str`, which reads a tokenizer from its JSON definition.
    /// Whether it returns one is a function of the text. Some definitions make it panic
    /// instead of returning an error, so the call runs as a blocking task of its own,
    /// where a panic only leaves the channel without a sender.
    #[verifier::external_body]
    fn read(definition: &str) -> (setup: Option<Setup>)
        ensures
            setup is Some <==> is_definition(definition@),
            setup matches Some(s) ==> s.definition@ == definition@ && s.limit@ is None,
    {
        let text = definition.to_owned();
        let (tx, rx) = mpsc::channel();
        let runtime = Builder::new_current_thread().build().ok()?;
        runtime.spawn_blocking(move || tx.send(text.parse::<Tokenizer>().ok()));
        let tokenizer = rx.recv().ok().flatten();
        runtime.shutdown_background();
        Some(
            Setup {
                tokenizer: Arc::new(tokenizer?),
                definition: Ghost(definition@),
                limit: Ghost(None),
                unpadded: Ghost(false),
            },
        )
    }

    /// Calls `PostProcessor::added_tokens` for a single sequence. A tokenizer without a
    /// post-processor adds none.
    #[verifier::external_body]
    fn added_tokens(&self) -> (count: usize)
        ensures
            count == special_tokens(self.definition@),
    {
        match self.tokenizer.get_post_processor() {
            Some(processor) => processor.added_tokens(false),
            None => 0,
        }
    }

    /// Calls `Tokenizer::with_truncation` with the default strategy, direction and
    /// stride, the last of which is 0. It subtracts the special tokens from the limit,
    /// which must therefore not be smaller, and refuses only a stride greater than what
    /// is left.
    #[verifier::external_body]
    fn truncate_at(&mut self, max_length: usize) -> (accepted: bool)
        requires
            special_tokens(old(self).definition@) <= max_length,
        ensures
            accepted,
            final(self).definition == old(self).definition,
            final(self).limit@ == Some(max_length as nat),
            final(self).unpadded == old(self).unpadded,
    {
        let params = TruncationParams { max_length, ..Default::default() };
        Arc::make_mut(&mut self.tokenizer).with_truncation(Some(params)).is_ok()
    }

    /// Calls `Tokenizer::with_padding(None)`, which turns padding off.
    #[verifier::external_body]
    fn without_padding(&mut self)
        ensures
            final(self).definition == old(self).definition,
            final(self).limit == old(self).limit,
            final(self).unpadded@,
    {
        Arc::make_mut(&mut self.tokenizer).with_padding(None);
    }

    /// Calls `Tokenizer::encode_batch`, and hands out each encoding's ids and attention
    /// mask. Without padding each text is encoded by itself: there is one row for each
    /// text, in order, and the call fails exactly when the encoding of some text does.
    /// A definition whose parts contradict one another makes it panic, so the call runs
    /// as a blocking task of its own, where a panic only leaves the channel without a
    /// sender.
    #[verifier::external_body]
    fn encode_batch(&self, texts: &Vec<String>, add_special_tokens: bool) -> (rows: Option<
        Vec<TokenRow>,
    >)
        requires
            self.limit@ is Some,
            special_tokens(self.definition@) <= self.limit@->0,
            self.unpadded@,
        ensures
            rows matches Some(rows) ==> rows.len() == texts.len() && forall|i: int|
                0 <= i < texts.len() ==> may_encode(
                    self.definition@,
                    self.limit@->0,
                    add_special_tokens,
                    texts[i]@,
                    Some((#[trigger] rows[i])@),
                ),
            rows is None ==> exists|i: int|
                0 <= i < texts.len() && may_encode(
                    self.definition@,
                    self.limit@->0,
                    add_special_tokens,
                    (#[trigger] texts[i])@,
                    None,
                ),
    {
        let (tokenizer, texts) = (self.tokenizer.clone(), texts.clone());
        let (tx, rx) = mpsc::channel();
        let runtime = Builder::new_current_thread().build().ok()?;
        runtime.spawn_blocking(
            move || tx.send(tokenizer.encode_batch(texts, add_special_tokens).ok()),
        );
        let encodings = rx.recv().ok().flatten();
        runtime.shutdown_background();
        Some(
            encodings?.iter().map(
                |e| TokenRow { ids: e.get_ids().to_vec(), mask: e.get_attention_mask().to_vec() },
            ).collect(),
        )
    }
}

/// Why a tokenizer could not be set up.
#[derive(Clone, Copy, Debug, PartialEq, Eq, Structural)]
pub enum LoadError {
    /// The text does not define a tokenizer.
    Malformed,
    /// The special tokens alone exceed the limit.
    NoRoomForText,
}

/// A tokenizer that truncates to a limit and does not pad, so that every row has its
/// text's true length.
pub struct TextEncoder {
    setup: Setup,
}

impl TextEncoder {
    #[verifier::type_invariant]
    spec fn ready(self) -> bool {
        &&& self.setup.limit@ is Some
        &&& special_tokens(self.setup.definition@) <= self.setup.limit@->0
        &&& self.setup.unpadded@
    }

    /// The text that defines the tokenizer.
    pub closed spec fn definition(self) -> Seq<char> {
        self.setup.definition@
    }

    /// The number of tokens that texts are truncated to.
    pub closed spec fn limit(self) -> nat {
        self.setup.limit@->0
    }

    /// Whether this encoder can give `row` for `text`, special tokens included, or,
    /// with `None`, fail on it.
    pub open spec fn may_give(self, text: Seq<char>, row: Option<(Seq<u32>, Seq<u32>)>) -> bool {
        may_encode(self.definition(), self.limit(), true, text, row)
    }

    /// Read a tokenizer from its definition and set it up to truncate at `max_length`
    /// tokens. Padding is turned off: rows are padded sub-batch by sub-batch, since
    /// padding them all to the longest in the request would defeat the token budget.
    pub fn load(definition: &str, max_length: usize) -> (encoder: Result<TextEncoder, LoadError>)
        ensures
            match encoder {
                Ok(encoder) => {
                    &&& is_definition(definition@)
                    &&& special_tokens(definition@) <= max_length
                    &&& encoder.definition() == definition@
                    &&& encoder.limit() == max_length
                },
                Err(LoadError::Malformed) => !is_definition(definition@),
                Err(LoadError::NoRoomForText) => is_definition(definition@) && special_tokens(
                    definition@,
                ) > max_length,
            },
    {
        let mut setup: Setup = match Setup::read(definition) {
            Some(setup) => setup,
            None => return Err(LoadError::Malformed),
        };
        if setup.added_tokens() > max_length {
            return Err(LoadError::NoRoomForText);
        }
        let _ = setup.truncate_at(max_length);
        setup.without_padding();
        Ok(TextEncoder { setup })
    }

    /// Encode each text, with special tokens. `None` when the encoding of some text
    /// fails.
    pub fn encode(&self, texts: &Vec<String>) -> (rows: Option<Vec<TokenRow>>)
        ensures
            match rows {
                Some(rows) => rows.len() == texts.len() && forall|i: int|
                    0 <= i < texts.len() ==> self.may_give(texts[i]@, Some((#[trigger] rows[i])@)),
                None => exists|i: int|
                    0 <= i < texts.len() && self.may_give((#[trigger] texts[i])@, None),
            },
    {
        proof {
            use_type_invariant(self);
        }
        self.setup.encode_batch(texts, true)
    }
}

/// An encoder does what its definition says. Whatever text defines a tokenizer with room
/// for text within the limit can be loaded, and nothing else can. What the encoder then
/// gives for texts is what that tokenizer can give for each of them, whole and special
/// tokens included, truncating to that limit: one row for each text, in order, with the
/// tokenizer's ids and mask as they are. It fails only where the tokenizer can fail.
pub proof fn law_encoder_follows_its_definition(
    definition: &str,
    limit: usize,
    loaded: Result<TextEncoder, LoadError>,
    texts: &Vec<String>,
    rows: Option<Vec<TokenRow>>,
)
    requires
        call_ensures(TextEncoder::load, (definition, limit), loaded),
        loaded matches Ok(encoder) ==> call_ensures(TextEncoder::encode, (&encoder, texts), rows),
    ensures
        loaded is Ok <==> is_definition(definition@) && special_tokens(definition@) <= limit,
        loaded is Err && loaded->Err_0 is Malformed <==> !is_definition(definition@),
        loaded is Ok && rows is Some ==> rows->0@.len() == texts@.len() && forall|i: int|
            0 <= i < texts@.len() ==> may_encode(
                definition@,
                limit as nat,
                true,
                texts@[i]@,
                Some(((#[trigger] rows->0@[i]).ids@, rows->0@[i].mask@)),
            ),
        loaded is Ok && rows is None ==> exists|i: int|
            0 <= i < texts@.len() && may_encode(
                definition@,
                limit as nat,
                true,
                (#[trigger] texts@[i])@,
                None,
            ),
{
    if loaded is Ok {
        let encoder = loaded->Ok_0;
        assert(encoder.definition() == definition@ && encoder.limit() == limit);
        if rows is None {
            let i = choose|i: int|
                0 <= i < texts@.len() && encoder.may_give((#[trigger] texts@[i])@, None);
            assert(may_encode(definition@, limit as nat, true, texts@[i]@, None));
        } else {
            assert forall|i: int| 0 <= i < texts@.len() implies may_encode(
                definition@,
                limit as nat,
                true,
                texts@[i]@,
                Some(((#[trigger] rows->0@[i]).ids@, rows->0@[i].mask@)),
            ) by {
                assert(encoder.may_give(texts@[i]@, Some(rows->0@[i]@)));
            }
        }
    }
}

/// What an encoder can give for a text is what the tokenizer of its definition can give
/// for that very text, special tokens included.
pub proof fn law_text_is_encoded_whole(
    encoder: TextEncoder,
    text: Seq<char>,
    row: Option<(Seq<u32>, Seq<u32>)>,
)
    ensures
        encoder.may_give(text, row) <==> may_encode(
            encoder.definition(),
            encoder.limit(),
            true,
            text,
            row,
        ),
{
}

} // verus!
