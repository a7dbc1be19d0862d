//! Names of models, and where they come from.
use vstd::prelude::*;

use crate::http::{is_success, success};
use crate::text::{chars_of, has_prefix_at, slice};

verus! {

/// What is shown for a model that the launch command line names as `hint`: a
/// repository id without its `hf:` marker, or else the file at the end of a
/// path.
pub open spec fn hint_shown(hint: Seq<char>) -> Seq<char> {
    if crate::text::begins_with(hint, "hf:"@) {
        hint.subrange(3, hint.len() as int)
    } else {
        crate::text::after_last(hint, '/')
    }
}

/// The `--model` value on the launch command line is usually a filesystem
/// path to a GGUF file; the display name wants the file itself. `hf:` URIs
/// (`hf:org/repo:quant`) carry the repo id, which is kept whole.
pub fn display_model_hint(hint: &str) -> (r: String)
    ensures
        r@ == hint_shown(hint@),
{
    let chars: Vec<char> = chars_of(hint);
    assert(hint@.subrange(0, hint@.len() as int) =~= hint@);
    proof {
        reveal_strlit("hf:");
    }
    if has_prefix_at(&chars, 0, "hf:") {
        return slice(hint, 3, chars.len());
    }
    let mut start: usize = chars.len();
    while start > 0 && chars[start - 1] != '/'
        invariant
            start <= chars@.len(),
            chars@ == hint@,
            crate::text::after_last(hint@, '/') == crate::text::after_last(
                hint@.subrange(0, start as int),
                '/',
            ) + hint@.subrange(start as int, hint@.len() as int),
        decreases start,
    {
        let ghost head = hint@.subrange(0, start as int);
        assert(head.drop_last() =~= hint@.subrange(0, start - 1));
        assert(hint@.subrange(start - 1, hint@.len() as int) =~= seq![hint@[start - 1]]
            + hint@.subrange(start as int, hint@.len() as int));
        start -= 1;
    }
    slice(hint, start, chars.len())
}

/// Why the engine's own model metadata could not be read.
#[derive(Clone, Copy, Debug, PartialEq, Eq, Structural)]
pub enum ModelMetadataError {
    /// The engine wants an API key.
    AuthRequired,
    /// The engine gave no usable answer.
    Unavailable,
}

/// What is known of a served model.
#[derive(Debug)]
pub struct ModelInfo {
    pub name: String,
    pub parameter_size: Option<String>,
    pub quantization: Option<String>,
    pub precision: Option<String>,
    pub tensor_type: Option<String>,
    pub model_type: Option<String>,
    pub pipeline_tag: Option<String>,
}

/// The model that an engine serves, and what kept its metadata away.
#[derive(Debug)]
pub struct ModelResolution {
    pub model: Option<ModelInfo>,
    pub metadata_error: Option<ModelMetadataError>,
}

/// What came back of a request for the list of models.
#[derive(Debug)]
pub enum ModelsReply {
    /// No response came.
    Failed,
    /// A response came, with this status and the ids of the models that its
    /// body lists, or none where the body is not such a list.
    Answered(u16, Option<Vec<String>>),
}

/// The error that a rejected request for the list of models stands for.
pub open spec fn rejection(status: u16) -> ModelMetadataError {
    if status == 401 || status == 403 {
        ModelMetadataError::AuthRequired
    } else {
        ModelMetadataError::Unavailable
    }
}

/// The id of the served model: the first one listed, where it is not empty.
pub open spec fn listed_id(ids: Option<Vec<String>>) -> Option<Seq<char>> {
    match ids {
        Some(list) if list@.len() > 0 && list@[0]@.len() > 0 => Some(list@[0]@),
        _ => None,
    }
}

/// Whether `r` is what a reply to a request for the list of models says.
pub open spec fn is_model_id(reply: ModelsReply, r: Result<String, ModelMetadataError>) -> bool {
    match reply {
        ModelsReply::Failed => r == Err::<String, _>(ModelMetadataError::Unavailable),
        ModelsReply::Answered(status, ids) => if !success(status) {
            r == Err::<String, _>(rejection(status))
        } else {
            match listed_id(ids) {
                Some(id) => r matches Ok(s) && s@ == id,
                None => r == Err::<String, _>(ModelMetadataError::Unavailable),
            }
        },
    }
}

/// The error that a rejected request for the list of models stands for:
/// unauthorized and forbidden ask for an API key.
pub fn classify_models_error_status(status: u16) -> (r: ModelMetadataError)
    ensures
        r == rejection(status),
{
    if status == 401 || status == 403 {
        ModelMetadataError::AuthRequired
    } else {
        ModelMetadataError::Unavailable
    }
}

/// What a reply to `/v1/models` has to say, reduced to what the name
/// resolution needs: the engine answers with a list whose single id is the
/// `--alias` or the GGUF file name.
pub fn models_reply(reply: ModelsReply) -> (r: Result<String, ModelMetadataError>)
    ensures
        is_model_id(reply, r),
{
    match reply {
        ModelsReply::Failed => Err(ModelMetadataError::Unavailable),
        ModelsReply::Answered(status, ids) => {
            if !is_success(status) {
                return Err(classify_models_error_status(status));
            }
            match ids {
                Some(list) => if list.len() > 0 && !list[0].as_str().is_empty() {
                    Ok(list[0].clone())
                } else {
                    Err(ModelMetadataError::Unavailable)
                },
                None => Err(ModelMetadataError::Unavailable),
            }
        },
    }
}

/// The id that a model goes by: the engine's own, or else what is shown of
/// the hint from the launch command line.
pub open spec fn shown_id(
    reply: Result<String, ModelMetadataError>,
    hint: Option<Seq<char>>,
) -> Option<Seq<char>> {
    match reply {
        Ok(id) => Some(id@),
        Err(_) => match hint {
            Some(h) => Some(hint_shown(h)),
            None => None,
        },
    }
}

/// Whether `info` holds a name and nothing else.
pub open spec fn is_bare(info: ModelInfo) -> bool {
    &&& info.parameter_size is None
    &&& info.quantization is None
    &&& info.precision is None
    &&& info.tensor_type is None
    &&& info.model_type is None
    &&& info.pipeline_tag is None
}

/// Whether `normalize` can give `name` for the id `id`.
pub open spec fn is_normalized<N: Fn(&str) -> String>(
    normalize: N,
    id: Seq<char>,
    name: String,
) -> bool {
    exists|s: &str| s@ == id && #[trigger] call_ensures(normalize, (s,), name)
}

/// The model that an engine serves. Its own id is the display name when it
/// exists; otherwise the hint stands in, and the error says why. Either is
/// shown as `normalize` writes it.
pub fn resolve_model<N: Fn(&str) -> String>(
    reply: Result<String, ModelMetadataError>,
    hint: Option<&str>,
    normalize: N,
) -> (r: ModelResolution)
    requires
        forall|s: &str| call_requires(normalize, (s,)),
    ensures
        match shown_id(
            reply,
            (match hint {
                Some(h) => Some(h@),
                None => None,
            }),
        ) {
            Some(id) => r.model matches Some(info) && is_bare(info) && is_normalized(
                normalize,
                id,
                info.name,
            ),
            None => r.model is None,
        },
        r.metadata_error == (match reply {
            Ok(_) => None,
            Err(error) => Some(error),
        }),
{
    let (id, metadata_error): (Option<String>, Option<ModelMetadataError>) = match reply {
        Ok(id) => (Some(id), None),
        Err(error) => (
            match hint {
                Some(h) => Some(display_model_hint(h)),
                None => None,
            },
            Some(error),
        ),
    };
    let model: Option<ModelInfo> = match id {
        Some(id) => {
            let name: String = normalize(id.as_str());
            Some(
                ModelInfo {
                    name,
                    parameter_size: None,
                    quantization: None,
                    precision: None,
                    tensor_type: None,
                    model_type: None,
                    pipeline_tag: None,
                },
            )
        },
        None => None,
    };
    ModelResolution { model, metadata_error }
}

} // verus!
