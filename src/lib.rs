//! Request-dispatch core of the BustAPI web framework: route patterns with
//! typed placeholders, per-method route tables with redirect resolution,
//! parameter validation, compiled response templates and their renderer,
//! and the middleware pipeline around them.

pub mod converters;
pub mod extract;
pub mod files;
pub mod handlers;
pub mod middleware;
pub mod numeric;
pub mod pattern;
pub mod request;
pub mod response;
pub mod router;
pub mod template;
pub mod text;
pub mod token;
pub mod value;
pub mod websocket;

pub use files::parse_range_header;
pub use handlers::{FastRouteHandler, FunctionHandler, ServerConfig};
pub use middleware::{Middleware, Passthrough};
pub use request::RequestData;
pub use response::ResponseData;
pub use router::{CompiledHandler, Decision, Handled, HandlerKind, Resolution, Router};
pub use template::{compile_structure, render, ExprNode, Piece, Shape, TemplatePart};
pub use token::{generate_csrf_token, generate_token};
pub use value::{FloatTerm, Op, ParamType, TypedValue};
pub use websocket::{MessageGate, TurboWebSocketHandler, WebSocketConfig, WsAction};
