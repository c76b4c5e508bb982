//! The logic of the goose mobile client: the permission-ask journal, the
//! cron sheet's grammar, the diff viewer's parsing and collapsing, the
//! stylesheet and citation scans, the Code plane's queue of asks, pull
//! requests and transcript, the attachment trays, the extension catalogue,
//! the navigation table, the transcript cache, and the small pieces of text
//! handling the screens share.

pub mod text;
pub mod ask_journal;
pub mod seqs;
pub mod cron;
pub mod diff;
pub mod diff_laws;
pub mod citations;
pub mod markdown;
pub mod external;
pub mod css;
pub mod names;
pub mod inherit;
pub mod extensions;
pub mod code;
pub mod code_laws;
pub mod attach;
pub mod icons;
pub mod keyed;
pub mod review;
pub mod transcript;
pub mod stream;
pub mod cache;
pub mod nav;
pub mod catalog;
pub mod session;
