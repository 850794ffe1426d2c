//! Bookkeeping of the host-exception filter: exception codes and their
//! labels, the install-once flag, the process-wide exception counter, and
//! the text of an exception record.
//!
//! The OS hook itself is installed by the caller, which asks this state
//! whether it may install and what to do with each exception.

use vstd::prelude::*;
use crate::text::{
    append_decimal, append_hex_fixed, append_hex_lower, decimal_digits, hex_fixed, hex_lower_digits,
};

verus! {

pub const EXCEPTION_ACCESS_VIOLATION: u32 = 0xC0000005;
pub const EXCEPTION_ARRAY_BOUNDS_EXCEEDED: u32 = 0xC000008C;
pub const EXCEPTION_BREAKPOINT: u32 = 0x80000003;
pub const EXCEPTION_DATATYPE_MISALIGNMENT: u32 = 0x80000002;
pub const EXCEPTION_FLT_DENORMAL_OPERAND: u32 = 0xC000008D;
pub const EXCEPTION_FLT_DIVIDE_BY_ZERO: u32 = 0xC000008E;
pub const EXCEPTION_FLT_INEXACT_RESULT: u32 = 0xC000008F;
pub const EXCEPTION_FLT_INVALID_OPERATION: u32 = 0xC0000090;
pub const EXCEPTION_FLT_OVERFLOW: u32 = 0xC0000091;
pub const EXCEPTION_FLT_STACK_CHECK: u32 = 0xC0000092;
pub const EXCEPTION_FLT_UNDERFLOW: u32 = 0xC0000093;
pub const EXCEPTION_ILLEGAL_INSTRUCTION: u32 = 0xC000001D;
pub const EXCEPTION_IN_PAGE_ERROR: u32 = 0xC0000006;
pub const EXCEPTION_INT_DIVIDE_BY_ZERO: u32 = 0xC0000094;
pub const EXCEPTION_INT_OVERFLOW: u32 = 0xC0000095;
pub const EXCEPTION_INVALID_DISPOSITION: u32 = 0xC0000026;
pub const EXCEPTION_NONCONTINUABLE_EXCEPTION: u32 = 0xC0000025;
pub const EXCEPTION_PRIV_INSTRUCTION: u32 = 0xC0000096;
pub const EXCEPTION_SINGLE_STEP: u32 = 0x80000004;
pub const EXCEPTION_STACK_OVERFLOW: u32 = 0xC00000FD;

/// The label of a known exception code.
pub open spec fn known_label(code: u32) -> Option<Seq<char>> {
    if code == EXCEPTION_ACCESS_VIOLATION {
        Some("访问违规"@)
    } else if code == EXCEPTION_ARRAY_BOUNDS_EXCEEDED {
        Some("数组越界"@)
    } else if code == EXCEPTION_BREAKPOINT {
        Some("断点异常"@)
    } else if code == EXCEPTION_DATATYPE_MISALIGNMENT {
        Some("数据类型未对齐"@)
    } else if code == EXCEPTION_FLT_DENORMAL_OPERAND {
        Some("浮点非正常操作数"@)
    } else if code == EXCEPTION_FLT_DIVIDE_BY_ZERO {
        Some("浮点除零"@)
    } else if code == EXCEPTION_FLT_INEXACT_RESULT {
        Some("浮点不精确结果"@)
    } else if code == EXCEPTION_FLT_INVALID_OPERATION {
        Some("浮点无效操作"@)
    } else if code == EXCEPTION_FLT_OVERFLOW {
        Some("浮点溢出"@)
    } else if code == EXCEPTION_FLT_STACK_CHECK {
        Some("浮点栈检查"@)
    } else if code == EXCEPTION_FLT_UNDERFLOW {
        Some("浮点下溢"@)
    } else if code == EXCEPTION_ILLEGAL_INSTRUCTION {
        Some("非法指令"@)
    } else if code == EXCEPTION_IN_PAGE_ERROR {
        Some("页面错误"@)
    } else if code == EXCEPTION_INT_DIVIDE_BY_ZERO {
        Some("整数除零"@)
    } else if code == EXCEPTION_INT_OVERFLOW {
        Some("整数溢出"@)
    } else if code == EXCEPTION_INVALID_DISPOSITION {
        Some("无效处置"@)
    } else if code == EXCEPTION_NONCONTINUABLE_EXCEPTION {
        Some("不可继续异常"@)
    } else if code == EXCEPTION_PRIV_INSTRUCTION {
        Some("特权指令"@)
    } else if code == EXCEPTION_SINGLE_STEP {
        Some("单步异常"@)
    } else if code == EXCEPTION_STACK_OVERFLOW {
        Some("栈溢出"@)
    } else {
        None
    }
}

/// The human-readable label of an exception code.
pub open spec fn exception_label(code: u32) -> Seq<char> {
    match known_label(code) {
        Some(l) => l,
        None => "未知异常 (0x"@ + hex_fixed(code as nat, 8) + ")"@,
    }
}

fn known_label_str(code: u32) -> (r: Option<&'static str>)
    ensures
        match (r, known_label(code)) {
            (Some(s), Some(l)) => s@ == l,
            (None, None) => true,
            _ => false,
        },
{
    if code == EXCEPTION_ACCESS_VIOLATION {
        Some("访问违规")
    } else if code == EXCEPTION_ARRAY_BOUNDS_EXCEEDED {
        Some("数组越界")
    } else if code == EXCEPTION_BREAKPOINT {
        Some("断点异常")
    } else if code == EXCEPTION_DATATYPE_MISALIGNMENT {
        Some("数据类型未对齐")
    } else if code == EXCEPTION_FLT_DENORMAL_OPERAND {
        Some("浮点非正常操作数")
    } else if code == EXCEPTION_FLT_DIVIDE_BY_ZERO {
        Some("浮点除零")
    } else if code == EXCEPTION_FLT_INEXACT_RESULT {
        Some("浮点不精确结果")
    } else if code == EXCEPTION_FLT_INVALID_OPERATION {
        Some("浮点无效操作")
    } else if code == EXCEPTION_FLT_OVERFLOW {
        Some("浮点溢出")
    } else if code == EXCEPTION_FLT_STACK_CHECK {
        Some("浮点栈检查")
    } else if code == EXCEPTION_FLT_UNDERFLOW {
        Some("浮点下溢")
    } else if code == EXCEPTION_ILLEGAL_INSTRUCTION {
        Some("非法指令")
    } else if code == EXCEPTION_IN_PAGE_ERROR {
        Some("页面错误")
    } else if code == EXCEPTION_INT_DIVIDE_BY_ZERO {
        Some("整数除零")
    } else if code == EXCEPTION_INT_OVERFLOW {
        Some("整数溢出")
    } else if code == EXCEPTION_INVALID_DISPOSITION {
        Some("无效处置")
    } else if code == EXCEPTION_NONCONTINUABLE_EXCEPTION {
        Some("不可继续异常")
    } else if code == EXCEPTION_PRIV_INSTRUCTION {
        Some("特权指令")
    } else if code == EXCEPTION_SINGLE_STEP {
        Some("单步异常")
    } else if code == EXCEPTION_STACK_OVERFLOW {
        Some("栈溢出")
    } else {
        None
    }
}

/// Returns the human-readable label of an exception code.
pub fn exception_code_to_string(code: u32) -> (r: String)
    ensures
        r@ == exception_label(code),
{
    match known_label_str(code) {
        Some(label) => String::from_str(label),
        None => {
            let mut s = String::from_str("未知异常 (0x");
            append_hex_fixed(&mut s, code as u64, 8);
            s.append(")");
            s
        },
    }
}

/// Exceptions after which the process cannot go on: it ends with exit code 1.
pub open spec fn spec_is_fatal(code: u32) -> bool {
    code == EXCEPTION_STACK_OVERFLOW || code == EXCEPTION_NONCONTINUABLE_EXCEPTION
}

pub fn is_fatal_exception(code: u32) -> (r: bool)
    ensures
        r == spec_is_fatal(code),
{
    code == EXCEPTION_STACK_OVERFLOW || code == EXCEPTION_NONCONTINUABLE_EXCEPTION
}

/// One caught host exception.
pub struct ExceptionInfo {
    pub exception_code: u32,
    pub exception_address: u64,
    pub thread_id: u32,
    /// Seconds since the Unix epoch.
    pub timestamp: u64,
    pub description: String,
    pub additional_info: String,
}

/// The text of an exception record; the address is written as `{:p}` writes it.
pub open spec fn record_text(
    code: u32,
    address: u64,
    thread_id: u32,
    timestamp: u64,
    description: Seq<char>,
    additional_info: Seq<char>,
) -> Seq<char> {
    "异常信息:\n  代码: 0x"@ + hex_fixed(code as nat, 8) + " ("@ + description + ")\n  地址: 0x"@
        + hex_lower_digits(address as nat) + "\n  线程ID: "@ + decimal_digits(thread_id as nat)
        + "\n  时间戳: "@ + decimal_digits(timestamp as nat) + "\n  附加信息: "@
        + if additional_info.len() == 0 {
        "无"@
    } else {
        additional_info
    }
}

impl ExceptionInfo {
    /// A record of exception `exception_code` at `exception_address`, caught
    /// on thread `thread_id` at `timestamp`.
    pub fn new(exception_code: u32, exception_address: u64, thread_id: u32, timestamp: u64) -> (r:
        Self)
        ensures
            r.exception_code == exception_code,
            r.exception_address == exception_address,
            r.thread_id == thread_id,
            r.timestamp == timestamp,
            r.description@ == exception_label(exception_code),
            r.additional_info@.len() == 0,
    {
        ExceptionInfo {
            exception_code,
            exception_address,
            thread_id,
            timestamp,
            description: exception_code_to_string(exception_code),
            additional_info: String::new(),
        }
    }

    pub fn with_additional_info(self, info: String) -> (r: Self)
        ensures
            r.exception_code == self.exception_code,
            r.exception_address == self.exception_address,
            r.thread_id == self.thread_id,
            r.timestamp == self.timestamp,
            r.description@ == self.description@,
            r.additional_info@ == info@,
    {
        ExceptionInfo { additional_info: info, ..self }
    }

    /// The record as text, one field per line.
    pub fn to_display_string(&self) -> (r: String)
        ensures
            r@ == record_text(
                self.exception_code,
                self.exception_address,
                self.thread_id,
                self.timestamp,
                self.description@,
                self.additional_info@,
            ),
    {
        let mut s = String::from_str("异常信息:\n  代码: 0x");
        append_hex_fixed(&mut s, self.exception_code as u64, 8);
        s.append(" (");
        s.append(self.description.as_str());
        s.append(")\n  地址: 0x");
        append_hex_lower(&mut s, self.exception_address);
        s.append("\n  线程ID: ");
        append_decimal(&mut s, self.thread_id as u64);
        s.append("\n  时间戳: ");
        append_decimal(&mut s, self.timestamp);
        s.append("\n  附加信息: ");
        if self.additional_info.unicode_len() == 0 {
            s.append("无");
        } else {
            s.append(self.additional_info.as_str());
        }
        assert(s@ =~= record_text(
            self.exception_code,
            self.exception_address,
            self.thread_id,
            self.timestamp,
            self.description@,
            self.additional_info@,
        ));
        s
    }
}

/// The process-wide state of the exception filter.
pub struct ExceptionHandler {
    installed: bool,
    exception_count: u32,
}

impl ExceptionHandler {
    pub closed spec fn spec_installed(self) -> bool {
        self.installed
    }

    pub closed spec fn spec_count(self) -> u32 {
        self.exception_count
    }

    pub fn new() -> (r: Self)
        ensures
            !r.spec_installed(),
            r.spec_count() == 0,
    {
        ExceptionHandler { installed: false, exception_count: 0 }
    }

    pub fn is_installed(&self) -> (r: bool)
        ensures
            r == self.spec_installed(),
    {
        self.installed
    }

    /// Marks the filter installed. A second installation fails, changing nothing.
    pub fn install(&mut self) -> (r: Result<(), String>)
        ensures
            r is Ok <==> !old(self).spec_installed(),
            final(self).spec_installed(),
            final(self).spec_count() == old(self).spec_count(),
    {
        if self.installed {
            return Err(String::from_str("异常处理程序已经安装"));
        }
        self.installed = true;
        Ok(())
    }

    /// Marks the filter removed; removing one that is not installed changes nothing.
    pub fn uninstall(&mut self)
        ensures
            !final(self).spec_installed(),
            final(self).spec_count() == old(self).spec_count(),
    {
        self.installed = false;
    }

    /// Counts one caught exception and builds its record. The second result
    /// says whether the process must end (exit code 1) rather than hand the
    /// exception on to the system's default handler. The counter never goes
    /// down; it stops at its largest value.
    pub fn on_exception(
        &mut self,
        exception_code: u32,
        exception_address: u64,
        thread_id: u32,
        timestamp: u64,
    ) -> (r: (ExceptionInfo, bool))
        ensures
            final(self).spec_installed() == old(self).spec_installed(),
            final(self).spec_count() == if old(self).spec_count() < u32::MAX {
                (old(self).spec_count() + 1) as u32
            } else {
                old(self).spec_count()
            },
            r.0.exception_code == exception_code,
            r.0.exception_address == exception_address,
            r.0.thread_id == thread_id,
            r.0.timestamp == timestamp,
            r.0.description@ == exception_label(exception_code),
            r.0.additional_info@ == "这是第 "@ + decimal_digits(final(self).spec_count() as nat)
                + " 次捕获到的异常"@,
            r.1 == spec_is_fatal(exception_code),
    {
        self.exception_count = self.exception_count.saturating_add(1);
        let mut note = String::from_str("这是第 ");
        append_decimal(&mut note, self.exception_count as u64);
        note.append(" 次捕获到的异常");
        let info = ExceptionInfo::new(exception_code, exception_address, thread_id, timestamp).with_additional_info(note);
        (info, is_fatal_exception(exception_code))
    }
}

/// Exceptions caught so far.
pub fn get_exception_count(handler: &ExceptionHandler) -> (r: u32)
    ensures
        r == handler.spec_count(),
{
    handler.exception_count
}

} // verus!
