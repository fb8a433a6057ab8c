//! What the service sends when a document of a knowledge base has changed.

use vstd::prelude::*;

verus! {

/// The body of a change notice.
#[derive(Debug, Clone, Copy, PartialEq, Eq, Structural)]
pub struct WebhookData {
    pub data: WebhookDataDetail,
}

/// The part of a change notice that is read: the knowledge base it is about.
#[derive(Debug, Clone, Copy, PartialEq, Eq, Structural)]
pub struct WebhookDataDetail {
    pub book_id: i32,
}

impl WebhookData {
    /// The knowledge base that has to be written again.
    pub fn book_id(&self) -> (r: i32)
        ensures
            r == self.data.book_id,
    {
        self.data.book_id
    }
}

} // verus!
