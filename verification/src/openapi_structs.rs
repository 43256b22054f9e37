//! The parts of an OpenAPI document that the importer consumes. Mappings
//! that the document keeps keyed (paths, responses, content) are held as
//! ordered sequences of pairs.

use vstd::prelude::*;

verus! {

/// A schema reference; nothing of it is consumed.
pub struct Schema {}

/// The model of a schema reference.
#[verifier::ext_equal]
pub struct SchemaV {}

impl View for Schema {
    type V = SchemaV;

    open spec fn view(&self) -> SchemaV {
        SchemaV {  }
    }
}

/// One parameter of an operation.
pub struct Parameter {
    pub name: String,
    pub description: Option<String>,
    pub required: Option<bool>,
    pub schema: Option<Schema>,
}

/// The model of a parameter.
#[verifier::ext_equal]
pub struct ParamV {
    pub name: Seq<char>,
    pub description: Option<Seq<char>>,
    pub required: Option<bool>,
    pub schema: Option<SchemaV>,
}

impl View for Parameter {
    type V = ParamV;

    open spec fn view(&self) -> ParamV {
        ParamV {
            name: self.name@,
            description: match self.description {
                Option::Some(d) => Option::Some(d@),
                Option::None => Option::None,
            },
            required: self.required,
            schema: match self.schema {
                Option::Some(_) => Option::Some(SchemaV {  }),
                Option::None => Option::None,
            },
        }
    }
}

/// One media type under a request body.
pub struct MediaType {
    pub schema: Option<Schema>,
}

/// The model of a media type.
#[verifier::ext_equal]
pub struct MediaTypeV {
    pub schema: Option<SchemaV>,
}

impl View for MediaType {
    type V = MediaTypeV;

    open spec fn view(&self) -> MediaTypeV {
        MediaTypeV {
            schema: match self.schema {
                Option::Some(_) => Option::Some(SchemaV {  }),
                Option::None => Option::None,
            },
        }
    }
}

/// The request body of an operation.
pub struct RequestBody {
    pub description: Option<String>,
    pub content: Vec<(String, MediaType)>,
}

/// The model of a request body.
#[verifier::ext_equal]
pub struct RequestBodyV {
    pub description: Option<Seq<char>>,
    pub content: Seq<(Seq<char>, MediaTypeV)>,
}

impl View for RequestBody {
    type V = RequestBodyV;

    open spec fn view(&self) -> RequestBodyV {
        RequestBodyV {
            description: match self.description {
                Option::Some(d) => Option::Some(d@),
                Option::None => Option::None,
            },
            content: Seq::new(
                self.content@.len(),
                |i: int| (self.content@[i].0@, self.content@[i].1@),
            ),
        }
    }
}

/// One documented response of an operation.
pub struct Response {
    pub description: String,
}

/// The model of a response entry.
#[verifier::ext_equal]
pub struct ResponseV {
    pub description: Seq<char>,
}

impl View for Response {
    type V = ResponseV;

    open spec fn view(&self) -> ResponseV {
        ResponseV { description: self.description@ }
    }
}

/// One operation under a path.
pub struct Operation {
    pub summary: Option<String>,
    pub description: Option<String>,
    pub operation_id: Option<String>,
    pub parameters: Option<Vec<Parameter>>,
    pub request_body: Option<RequestBody>,
    pub responses: Vec<(String, Response)>,
}

/// The model of an operation.
#[verifier::ext_equal]
pub struct OperationV {
    pub summary: Option<Seq<char>>,
    pub description: Option<Seq<char>>,
    pub operation_id: Option<Seq<char>>,
    pub parameters: Option<Seq<ParamV>>,
    pub request_body: Option<RequestBodyV>,
    pub responses: Seq<(Seq<char>, ResponseV)>,
}

impl View for Operation {
    type V = OperationV;

    open spec fn view(&self) -> OperationV {
        OperationV {
            summary: match self.summary {
                Option::Some(d) => Option::Some(d@),
                Option::None => Option::None,
            },
            description: match self.description {
                Option::Some(d) => Option::Some(d@),
                Option::None => Option::None,
            },
            operation_id: match self.operation_id {
                Option::Some(d) => Option::Some(d@),
                Option::None => Option::None,
            },
            parameters: match self.parameters {
                Option::Some(ps) => Option::Some(Seq::new(ps@.len(), |i: int| ps@[i]@)),
                Option::None => Option::None,
            },
            request_body: match self.request_body {
                Option::Some(rb) => Option::Some(rb@),
                Option::None => Option::None,
            },
            responses: Seq::new(
                self.responses@.len(),
                |i: int| (self.responses@[i].0@, self.responses@[i].1@),
            ),
        }
    }
}

/// The operations a path may carry.
pub struct PathItem {
    pub summary: Option<String>,
    pub description: Option<String>,
    pub get: Option<Operation>,
    pub put: Option<Operation>,
    pub post: Option<Operation>,
    pub delete: Option<Operation>,
}

/// The model of a path item.
#[verifier::ext_equal]
pub struct PathItemV {
    pub summary: Option<Seq<char>>,
    pub description: Option<Seq<char>>,
    pub get: Option<OperationV>,
    pub put: Option<OperationV>,
    pub post: Option<OperationV>,
    pub delete: Option<OperationV>,
}

impl View for PathItem {
    type V = PathItemV;

    open spec fn view(&self) -> PathItemV {
        PathItemV {
            summary: match self.summary {
                Option::Some(d) => Option::Some(d@),
                Option::None => Option::None,
            },
            description: match self.description {
                Option::Some(d) => Option::Some(d@),
                Option::None => Option::None,
            },
            get: match self.get {
                Option::Some(op) => Option::Some(op@),
                Option::None => Option::None,
            },
            put: match self.put {
                Option::Some(op) => Option::Some(op@),
                Option::None => Option::None,
            },
            post: match self.post {
                Option::Some(op) => Option::Some(op@),
                Option::None => Option::None,
            },
            delete: match self.delete {
                Option::Some(op) => Option::Some(op@),
                Option::None => Option::None,
            },
        }
    }
}

/// The document's self-description.
pub struct Info {
    pub title: String,
    pub version: String,
}

/// The model of the document's self-description.
#[verifier::ext_equal]
pub struct InfoV {
    pub title: Seq<char>,
    pub version: Seq<char>,
}

impl View for Info {
    type V = InfoV;

    open spec fn view(&self) -> InfoV {
        InfoV { title: self.title@, version: self.version@ }
    }
}

/// An OpenAPI document, reduced to what the importer reads.
pub struct OpenAPI {
    pub openapi: String,
    pub info: Info,
    pub paths: Vec<(String, PathItem)>,
}

/// The model of a document.
#[verifier::ext_equal]
pub struct OpenAPIV {
    pub openapi: Seq<char>,
    pub info: InfoV,
    pub paths: Seq<(Seq<char>, PathItemV)>,
}

impl View for OpenAPI {
    type V = OpenAPIV;

    open spec fn view(&self) -> OpenAPIV {
        OpenAPIV {
            openapi: self.openapi@,
            info: self.info@,
            paths: Seq::new(self.paths@.len(), |i: int| (self.paths@[i].0@, self.paths@[i].1@)),
        }
    }
}

} // verus!
