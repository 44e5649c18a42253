//! The Bot API objects that the library reads.
use vstd::prelude::*;

verus! {

/// The envelope of every Bot API reply.
#[derive(Debug)]
pub struct ApiResponse<T> {
    pub ok: bool,
    pub result: Option<T>,
    pub description: Option<String>,
}

#[derive(Debug)]
pub struct User {
    pub id: i64,
    pub is_bot: bool,
    pub first_name: String,
    pub username: Option<String>,
}

#[derive(Debug)]
pub struct Chat {
    pub id: i64,
    pub title: Option<String>,
    pub chat_type: String,
}

#[derive(Debug)]
pub struct Update {
    pub update_id: i64,
    pub message: Option<Message>,
    pub channel_post: Option<Message>,
}

#[derive(Debug)]
pub struct Message {
    pub message_id: i64,
    pub chat: Chat,
    pub date: i64,
    pub caption: Option<String>,
    pub document: Option<Document>,
    pub photo: Option<Vec<PhotoSize>>,
    pub video: Option<Video>,
    pub audio: Option<Audio>,
    pub voice: Option<Voice>,
    pub animation: Option<Animation>,
}

#[derive(Debug, Clone)]
pub struct Document {
    pub file_id: String,
    pub file_unique_id: String,
    pub file_name: Option<String>,
    pub mime_type: Option<String>,
    pub file_size: Option<u64>,
}

#[derive(Debug, Clone)]
pub struct PhotoSize {
    pub file_id: String,
    pub file_unique_id: String,
    pub width: i32,
    pub height: i32,
    pub file_size: Option<u64>,
}

#[derive(Debug, Clone)]
pub struct Video {
    pub file_id: String,
    pub file_unique_id: String,
    pub file_name: Option<String>,
    pub mime_type: Option<String>,
    pub file_size: Option<u64>,
    pub duration: i32,
}

#[derive(Debug, Clone)]
pub struct Audio {
    pub file_id: String,
    pub file_unique_id: String,
    pub file_name: Option<String>,
    pub mime_type: Option<String>,
    pub file_size: Option<u64>,
    pub duration: i32,
    pub title: Option<String>,
    pub performer: Option<String>,
}

#[derive(Debug, Clone)]
pub struct Voice {
    pub file_id: String,
    pub file_unique_id: String,
    pub mime_type: Option<String>,
    pub file_size: Option<u64>,
    pub duration: i32,
}

#[derive(Debug, Clone)]
pub struct Animation {
    pub file_id: String,
    pub file_unique_id: String,
    pub file_name: Option<String>,
    pub mime_type: Option<String>,
    pub file_size: Option<u64>,
}

#[derive(Debug)]
pub struct TelegramFile {
    pub file_id: String,
    pub file_unique_id: String,
    pub file_size: Option<u64>,
    pub file_path: Option<String>,
}

} // verus!
