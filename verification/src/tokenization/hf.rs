use tokenizers::models::bpe::Vocab;
use tokenizers::models::bpe::BPE;
use tokenizers::models::wordpiece::WordPiece;
use tokenizers::pre_tokenizers::whitespace::Whitespace;
use tokenizers::DecoderWrapper;
use tokenizers::ModelWrapper;
use tokenizers::NormalizerWrapper;
use tokenizers::PostProcessorWrapper;
use tokenizers::PreTokenizerWrapper;
use tokenizers::TokenizerImpl;
use vstd::prelude::*;

verus! {

/// The five parts that a tokenizer of the `tokenizers` crate is made of, and the tokenizer
/// itself. Nothing is known of what they hold.
#[verifier::external_type_specification]
#[verifier::external_body]
pub struct ExModelWrapper(ModelWrapper);

#[verifier::external_type_specification]
#[verifier::external_body]
pub struct ExNormalizerWrapper(NormalizerWrapper);

#[verifier::external_type_specification]
#[verifier::external_body]
pub struct ExPreTokenizerWrapper(PreTokenizerWrapper);

#[verifier::external_type_specification]
#[verifier::external_body]
pub struct ExPostProcessorWrapper(PostProcessorWrapper);

#[verifier::external_type_specification]
#[verifier::external_body]
pub struct ExDecoderWrapper(DecoderWrapper);

#[verifier::external_type_specification]
#[verifier::external_body]
#[verifier::reject_recursive_types(M)]
#[verifier::reject_recursive_types(N)]
#[verifier::reject_recursive_types(PT)]
#[verifier::reject_recursive_types(PP)]
#[verifier::reject_recursive_types(D)]
pub struct ExTokenizerImpl<M, N, PT, PP, D>(TokenizerImpl<M, N, PT, PP, D>);

/// A tokenizer of the `tokenizers` crate with the crate's own choice of parts.
pub type HfTokenizer = TokenizerImpl<
    ModelWrapper,
    NormalizerWrapper,
    PreTokenizerWrapper,
    PostProcessorWrapper,
    DecoderWrapper,
>;

/// `vocab` holds the token `token`.
pub open spec fn holds_token(vocab: Seq<(String, u32)>, token: Seq<char>) -> bool {
    exists|j: int| 0 <= j < vocab.len() && (#[trigger] vocab[j]).0@ == token
}

/// `vocab` holds, for every merge of `merges`, its two tokens and the two put together.
pub open spec fn merges_fit(vocab: Seq<(String, u32)>, merges: Seq<(String, String)>) -> bool {
    forall|i: int|
        0 <= i < merges.len() ==> {
            &&& holds_token(vocab, (#[trigger] merges[i]).0@)
            &&& holds_token(vocab, merges[i].1@)
            &&& holds_token(vocab, merges[i].0@ + merges[i].1@)
        }
}

/// A word-piece tokenizer over `vocab`, the tokens with their numbers, that cuts a text at
/// white space before it looks for word pieces.
///
/// Trusted: the builder of `WordPiece`, `TokenizerImpl::new` and `with_pre_tokenizer` of
/// the `tokenizers` crate. The builder fails only where it reads a file, and it is given
/// none, so there is a tokenizer; nothing is claimed of what it holds.
#[verifier::external_body]
pub(crate) fn wordpiece_tokenizer(vocab: Vec<(String, u32)>) -> (tokenizer: Option<HfTokenizer>)
    ensures
        tokenizer is Some,
{
    let vocab: Vocab = vocab.into_iter().collect();
    let model = WordPiece::builder().vocab(vocab).build().ok()?;
    let mut tokenizer: HfTokenizer = TokenizerImpl::new(ModelWrapper::from(model));
    tokenizer.with_pre_tokenizer(Some(Whitespace));
    Some(tokenizer)
}

/// A byte-pair tokenizer over `vocab`, the tokens with their numbers, and `merges`, with
/// `unk_token` for what it does not know.
///
/// Trusted: the builder of `BPE` and `TokenizerImpl::new` of the `tokenizers` crate. The
/// builder looks up, for every merge, its two tokens and the two put together, and fails
/// or panics where the vocabulary does not hold one of them; so the merges are asked to
/// fit. It fails on nothing else where it is given no file and no dropout, so there is a
/// tokenizer; nothing is claimed of what it holds.
#[verifier::external_body]
pub(crate) fn bpe_tokenizer(
    vocab: Vec<(String, u32)>,
    merges: Vec<(String, String)>,
    unk_token: String,
) -> (tokenizer: Option<HfTokenizer>)
    requires
        merges_fit(vocab@, merges@),
    ensures
        tokenizer is Some,
{
    let vocab: Vocab = vocab.into_iter().collect();
    let model = BPE::builder().vocab_and_merges(vocab, merges).unk_token(unk_token).build().ok()?;
    Some(TokenizerImpl::new(ModelWrapper::from(model)))
}

/// The tokens into which `tokenizer` cuts `text`, with no special tokens added. `None`
/// where the tokenizer fails.
///
/// Trusted: `TokenizerImpl::encode` and `Encoding::get_tokens` of the `tokenizers` crate.
/// Nothing is claimed of the tokens.
#[verifier::external_body]
pub(crate) fn encode(tokenizer: &HfTokenizer, text: &str) -> Option<Vec<String>> {
    tokenizer.encode(text, false).ok().map(|encoding| encoding.get_tokens().to_vec())
}

/// The tokens into which `tokenizer` cuts each of `texts`, with no special tokens added.
/// `None` where the tokenizer fails on one of the texts.
///
/// Trusted: `TokenizerImpl::encode_batch` and `Encoding::get_tokens` of the `tokenizers` crate.
/// The crate encodes the texts one by one and keeps their order, so there are as many
/// results as texts; nothing is claimed of the tokens.
#[verifier::external_body]
pub(crate) fn encode_batch(tokenizer: &HfTokenizer, texts: Vec<String>) -> (batch: Option<
    Vec<Vec<String>>,
>)
    ensures
        batch matches Some(found) ==> found.len() == texts.len(),
{
    let encodings = tokenizer.encode_batch(texts, false).ok()?;
    Some(encodings.iter().map(|encoding| encoding.get_tokens().to_vec()).collect())
}

} // verus!
