use vstd::prelude::*;
use vstd::string::*;

use crate::error::ConnectorError;
use crate::text::{
    chars_of, concat2, concat3, ends_with, eq_ignore_ascii_case, eq_ignore_ascii_case_spec, find_first,
    first_index_of, has_suffix, spec_to_lowercase, str_eq, to_lowercase, is_ascii_text, ascii_lowered,
};

verus! {

/// The tabular file formats that the readers understand.
#[derive(Debug, Clone, Copy, PartialEq, Eq, Structural)]
pub enum FileFormat {
    Parquet,
    Csv,
    JsonLines,
    Json,
}

/// The format that an explicit, already lower-cased format name selects.
pub open spec fn format_for_name(name: Seq<char>) -> Option<FileFormat> {
    if name == "parquet"@ {
        Some(FileFormat::Parquet)
    } else if name == "csv"@ {
        Some(FileFormat::Csv)
    } else if name == "jsonl"@ || name == "ndjson"@ || name == "jsonlines"@ {
        Some(FileFormat::JsonLines)
    } else if name == "json"@ {
        Some(FileFormat::Json)
    } else {
        None
    }
}

/// The format that the extension of an already lower-cased path selects.
pub open spec fn format_for_extension(path: Seq<char>) -> Option<FileFormat> {
    if has_suffix(path, ".parquet"@) {
        Some(FileFormat::Parquet)
    } else if has_suffix(path, ".csv"@) {
        Some(FileFormat::Csv)
    } else if has_suffix(path, ".jsonl"@) || has_suffix(path, ".ndjson"@) || has_suffix(
        path,
        ".jsonlines"@,
    ) {
        Some(FileFormat::JsonLines)
    } else if has_suffix(path, ".json"@) {
        Some(FileFormat::Json)
    } else {
        None
    }
}

/// The part of a path before its query string.
pub open spec fn path_before_query(path: Seq<char>) -> Seq<char> {
    path.take(first_index_of(path, '?'))
}

/// The parts of a media type that format detection reads: its type, its
/// subtype and its structured-syntax suffix.
pub struct MediaType {
    pub type_: String,
    pub subtype: String,
    pub suffix: Option<String>,
}

/// The view of a parsed media type, or of the text of the parse error.
pub open spec fn media_result_view(r: Result<MediaType, String>) -> Result<
    (Seq<char>, Seq<char>, Option<Seq<char>>),
    Seq<char>,
> {
    match r {
        Ok(m) => Ok(
            (
                m.type_@,
                m.subtype@,
                match m.suffix {
                    Some(x) => Some(x@),
                    None => None,
                },
            ),
        ),
        Err(e) => Err(e@),
    }
}

/// What `mime::Mime::from_str` yields for a string, read back as type,
/// subtype and suffix, or the text of its error.
pub uninterp spec fn spec_parse_media_type(s: Seq<char>) -> Result<
    (Seq<char>, Seq<char>, Option<Seq<char>>),
    Seq<char>,
>;

/// Calls `mime::Mime::from_str` (through `str::parse`) and reads back
/// `type_`, `subtype` and `suffix` of the result, or the `Display` text of the
/// error. Claimed: the outcome is a function of the characters of `s`.
#[verifier::external_body]
fn parse_media_type(s: &str) -> (r: Result<MediaType, String>)
    ensures
        media_result_view(r) == spec_parse_media_type(s@),
{
    match s.parse::<mime::Mime>() {
        Ok(m) => Ok(
            MediaType {
                type_: m.type_().as_str().to_string(),
                subtype: m.subtype().as_str().to_string(),
                suffix: match m.suffix() {
                    Some(n) => Some(n.as_str().to_string()),
                    None => None,
                },
            },
        ),
        Err(e) => Err(e.to_string()),
    }
}

/// The format that a parsed media type announces.
pub open spec fn format_for_media(
    type_: Seq<char>,
    subtype: Seq<char>,
    suffix: Option<Seq<char>>,
) -> Option<FileFormat> {
    if suffix == Some("json"@) {
        Some(FileFormat::Json)
    } else if type_ == "text"@ && eq_ignore_ascii_case_spec(subtype, "csv"@) {
        Some(FileFormat::Csv)
    } else if type_ == "application"@ {
        if subtype == "json"@ {
            Some(FileFormat::Json)
        } else if subtype == "x-ndjson"@ || subtype == "ndjson"@ || subtype == "jsonl"@ || subtype
            == "jsonlines"@ || subtype == "x-jsonlines"@ {
            Some(FileFormat::JsonLines)
        } else if subtype == "vnd.apache.parquet"@ || subtype == "x-parquet"@ {
            Some(FileFormat::Parquet)
        } else {
            None
        }
    } else {
        None
    }
}

/// The format that a parsed media type announces, if any.
pub fn format_from_media_type(media: &MediaType) -> (r: Option<FileFormat>)
    ensures
        r == format_for_media(
            media.type_@,
            media.subtype@,
            match media.suffix {
                Some(x) => Some(x@),
                None => None,
            },
        ),
{
    let json_suffix = match &media.suffix {
        Some(x) => str_eq(x.as_str(), "json"),
        None => false,
    };
    if json_suffix {
        return Some(FileFormat::Json);
    }
    let t = media.type_.as_str();
    let sub = media.subtype.as_str();
    if str_eq(t, "text") && eq_ignore_ascii_case(sub, "csv") {
        return Some(FileFormat::Csv);
    }
    if str_eq(t, "application") {
        if str_eq(sub, "json") {
            return Some(FileFormat::Json);
        }
        if str_eq(sub, "x-ndjson") || str_eq(sub, "ndjson") || str_eq(sub, "jsonl") || str_eq(
            sub,
            "jsonlines",
        ) || str_eq(sub, "x-jsonlines") {
            return Some(FileFormat::JsonLines);
        }
        if str_eq(sub, "vnd.apache.parquet") || str_eq(sub, "x-parquet") {
            return Some(FileFormat::Parquet);
        }
    }
    None
}

/// The format that an already lower-cased format name selects, if any.
fn format_named(name: &str) -> (r: Option<FileFormat>)
    ensures
        r == format_for_name(name@),
{
    if str_eq(name, "parquet") {
        Some(FileFormat::Parquet)
    } else if str_eq(name, "csv") {
        Some(FileFormat::Csv)
    } else if str_eq(name, "jsonl") || str_eq(name, "ndjson") || str_eq(name, "jsonlines") {
        Some(FileFormat::JsonLines)
    } else if str_eq(name, "json") {
        Some(FileFormat::Json)
    } else {
        None
    }
}

/// The format that the extension of an already lower-cased path selects.
fn format_by_extension(path: &str) -> (r: Option<FileFormat>)
    ensures
        r == format_for_extension(path@),
{
    if ends_with(path, ".parquet") {
        Some(FileFormat::Parquet)
    } else if ends_with(path, ".csv") {
        Some(FileFormat::Csv)
    } else if ends_with(path, ".jsonl") || ends_with(path, ".ndjson") || ends_with(
        path,
        ".jsonlines",
    ) {
        Some(FileFormat::JsonLines)
    } else if ends_with(path, ".json") {
        Some(FileFormat::Json)
    } else {
        None
    }
}

/// `r` is what `FileFormat::from_format_str` answers for the format name `fmt`.
pub open spec fn format_str_outcome(fmt: Seq<char>, r: Result<FileFormat, ConnectorError>) -> bool {
    match format_for_name(spec_to_lowercase(fmt)) {
        Some(f) => r == Ok::<FileFormat, ConnectorError>(f),
        None => r matches Err(ConnectorError::InvalidRequest(m)) && m@ == "Unsupported format: "@
            + spec_to_lowercase(fmt),
    }
}

impl FileFormat {
    /// Selects the format named in the connection properties when present,
    /// otherwise the one that the extension of `path` (without its query
    /// string, compared without case) announces.
    pub fn detect(path: &str, properties: Option<&str>) -> (r: Result<FileFormat, ConnectorError>)
        ensures
            match properties {
                Some(fmt) => format_str_outcome(fmt@, r),
                None => match format_for_extension(spec_to_lowercase(path_before_query(path@))) {
                    Some(f) => r == Ok::<FileFormat, ConnectorError>(f),
                    None => r matches Err(ConnectorError::InvalidRequest(m)) && m@
                        == "Cannot detect format for path: "@ + path@
                        + ". Set 'format' in connection properties."@,
                },
            },
            match properties {
                Some(fmt) => is_ascii_text(fmt@) ==> spec_to_lowercase(fmt@) == ascii_lowered(fmt@),
                None => is_ascii_text(path@) ==> spec_to_lowercase(path_before_query(path@))
                    == ascii_lowered(path_before_query(path@)),
            },
    {
        if let Some(fmt) = properties {
            return Self::from_format_str(fmt);
        }
        let chars = chars_of(path);
        let cut = find_first(&chars, '?');
        let path_only = path.substring_char(0, cut);
        let lower = to_lowercase(path_only);
        match format_by_extension(lower.as_str()) {
            Some(f) => Ok(f),
            None => Err(
                ConnectorError::InvalidRequest(
                    concat3(
                        "Cannot detect format for path: ",
                        path,
                        ". Set 'format' in connection properties.",
                    ),
                ),
            ),
        }
    }

    /// Selects the format that a format name (compared without case) names.
    pub fn from_format_str(fmt: &str) -> (r: Result<FileFormat, ConnectorError>)
        ensures
            format_str_outcome(fmt@, r),
            is_ascii_text(fmt@) ==> spec_to_lowercase(fmt@) == ascii_lowered(fmt@),
    {
        let lower = to_lowercase(fmt);
        match format_named(lower.as_str()) {
            Some(f) => Ok(f),
            None => Err(ConnectorError::InvalidRequest(concat2("Unsupported format: ", lower.as_str()))),
        }
    }

    /// Selects the format that an HTTP `Content-Type` value announces.
    pub fn from_content_type(content_type: &str) -> (r: Result<FileFormat, ConnectorError>)
        ensures
            match spec_parse_media_type(content_type@) {
                Err(e) => r matches Err(ConnectorError::InvalidRequest(m)) && m@
                    == "Invalid Content-Type '"@ + content_type@ + "': "@ + e,
                Ok(parts) => match format_for_media(parts.0, parts.1, parts.2) {
                    Some(f) => r == Ok::<FileFormat, ConnectorError>(f),
                    None => r matches Err(ConnectorError::InvalidRequest(m)) && m@
                        == "Cannot determine format from Content-Type '"@ + content_type@ + "'"@,
                },
            },
    {
        match parse_media_type(content_type) {
            Err(e) => {
                let m = concat3("Invalid Content-Type '", content_type, "': ");
                Err(ConnectorError::InvalidRequest(m.concat(e.as_str())))
            },
            Ok(media) => match format_from_media_type(&media) {
                Some(f) => Ok(f),
                None => Err(
                    ConnectorError::InvalidRequest(
                        concat3("Cannot determine format from Content-Type '", content_type, "'"),
                    ),
                ),
            },
        }
    }
}

} // verus!
