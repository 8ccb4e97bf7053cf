//! Errors of the device protocol.

use vstd::prelude::*;
use crate::text::{owned, push_str};

verus! {

#[derive(Clone, Debug, PartialEq)]
pub enum MakcuError {
    SerialPortError(String),
    ParseError(String),
    TimeoutError,
    DeviceNotConnected,
    InvalidParameter(String),
    CommandFailed(String),
}

pub type MakcuResult<T> = Result<T, MakcuError>;

impl MakcuError {
    /// The message shown to a user.
    pub open spec fn message_spec(&self) -> Seq<char> {
        match self {
            MakcuError::SerialPortError(m) => "串口错误: "@ + m@,
            MakcuError::ParseError(m) => "解析错误: "@ + m@,
            MakcuError::TimeoutError => "操作超时"@,
            MakcuError::DeviceNotConnected => "设备未连接"@,
            MakcuError::InvalidParameter(m) => "无效参数: "@ + m@,
            MakcuError::CommandFailed(m) => "命令执行失败: "@ + m@,
        }
    }

    /// The message shown to a user.
    pub fn message(&self) -> (r: String)
        ensures
            r@ == self.message_spec(),
    {
        match self {
            MakcuError::SerialPortError(m) => {
                let mut s = owned("串口错误: ");
                push_str(&mut s, m.as_str());
                s
            },
            MakcuError::ParseError(m) => {
                let mut s = owned("解析错误: ");
                push_str(&mut s, m.as_str());
                s
            },
            MakcuError::TimeoutError => owned("操作超时"),
            MakcuError::DeviceNotConnected => owned("设备未连接"),
            MakcuError::InvalidParameter(m) => {
                let mut s = owned("无效参数: ");
                push_str(&mut s, m.as_str());
                s
            },
            MakcuError::CommandFailed(m) => {
                let mut s = owned("命令执行失败: ");
                push_str(&mut s, m.as_str());
                s
            },
        }
    }
}

} // verus!
