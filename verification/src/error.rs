//! Errors, each with a message to show.

use vstd::prelude::*;
use vstd::string::*;

verus! {

#[derive(Debug)]
pub enum AppError {
    Audio(String),
    Model(String),
    Asr(String),
    Ai(String),
    Session(String),
    Config(String),
    Io(String),
    Json(String),
    Other(String),
}

pub type AppResult<T> = Result<T, AppError>;

/// Model of [`AppError`].
#[verifier::ext_equal]
pub ghost enum ErrorView {
    Audio(Seq<char>),
    Model(Seq<char>),
    Asr(Seq<char>),
    Ai(Seq<char>),
    Session(Seq<char>),
    Config(Seq<char>),
    Io(Seq<char>),
    Json(Seq<char>),
    Other(Seq<char>),
}

impl View for AppError {
    type V = ErrorView;

    open spec fn view(&self) -> ErrorView {
        match *self {
            AppError::Audio(m) => ErrorView::Audio(m@),
            AppError::Model(m) => ErrorView::Model(m@),
            AppError::Asr(m) => ErrorView::Asr(m@),
            AppError::Ai(m) => ErrorView::Ai(m@),
            AppError::Session(m) => ErrorView::Session(m@),
            AppError::Config(m) => ErrorView::Config(m@),
            AppError::Io(m) => ErrorView::Io(m@),
            AppError::Json(m) => ErrorView::Json(m@),
            AppError::Other(m) => ErrorView::Other(m@),
        }
    }
}

impl ErrorView {
    /// What is shown of an error: the field it comes from, and its text.
    pub open spec fn message(self) -> Seq<char> {
        match self {
            ErrorView::Audio(m) => "音频设备错误："@ + m,
            ErrorView::Model(m) => "模型错误："@ + m,
            ErrorView::Asr(m) => "语音识别错误："@ + m,
            ErrorView::Ai(m) => "AI 接口错误："@ + m,
            ErrorView::Session(m) => "会话错误："@ + m,
            ErrorView::Config(m) => "配置错误："@ + m,
            ErrorView::Io(m) => "文件读写失败："@ + m,
            ErrorView::Json(m) => "数据格式错误："@ + m,
            ErrorView::Other(m) => m,
        }
    }
}

fn prefixed(prefix: &str, m: &String) -> (r: String)
    ensures
        r@ == prefix@ + m@,
{
    let mut s = prefix.to_owned();
    s.append(m.as_str());
    s
}

impl AppError {
    /// The text to show.
    pub fn message(&self) -> (r: String)
        ensures
            r@ == self@.message(),
    {
        match self {
            AppError::Audio(m) => prefixed("音频设备错误：", m),
            AppError::Model(m) => prefixed("模型错误：", m),
            AppError::Asr(m) => prefixed("语音识别错误：", m),
            AppError::Ai(m) => prefixed("AI 接口错误：", m),
            AppError::Session(m) => prefixed("会话错误：", m),
            AppError::Config(m) => prefixed("配置错误：", m),
            AppError::Io(m) => prefixed("文件读写失败：", m),
            AppError::Json(m) => prefixed("数据格式错误：", m),
            AppError::Other(m) => m.clone(),
        }
    }

    pub fn audio(msg: &str) -> (r: AppError)
        ensures
            r@ == ErrorView::Audio(msg@),
    {
        AppError::Audio(msg.to_owned())
    }

    pub fn model(msg: &str) -> (r: AppError)
        ensures
            r@ == ErrorView::Model(msg@),
    {
        AppError::Model(msg.to_owned())
    }

    pub fn asr(msg: &str) -> (r: AppError)
        ensures
            r@ == ErrorView::Asr(msg@),
    {
        AppError::Asr(msg.to_owned())
    }

    pub fn ai(msg: &str) -> (r: AppError)
        ensures
            r@ == ErrorView::Ai(msg@),
    {
        AppError::Ai(msg.to_owned())
    }

    pub fn session(msg: &str) -> (r: AppError)
        ensures
            r@ == ErrorView::Session(msg@),
    {
        AppError::Session(msg.to_owned())
    }

    pub fn config(msg: &str) -> (r: AppError)
        ensures
            r@ == ErrorView::Config(msg@),
    {
        AppError::Config(msg.to_owned())
    }
}

} // verus!
