//! The classified errors that every operation of the library reports.

use vstd::prelude::*;
use vstd::string::StringExecFns;

verus! {

/// Which of the two persisted secrets an operation is about.
#[derive(Clone, Copy, Debug, PartialEq, Eq, Structural)]
pub enum SecretKind {
    /// The API credential.
    Credential,
    /// The URL of the completions endpoint.
    EndpointUrl,
}

/// Failures of the secret cipher.
#[derive(Clone, Copy, Debug, PartialEq, Eq, Structural)]
pub enum CipherError {
    /// The key file could not be read or written, or does not hold a key.
    KeyIoError,
    /// The plaintext could not be encrypted.
    EncryptionFailed,
    /// The ciphertext did not authenticate under the key.
    DecryptionFailed,
    /// The stored blob is not base64 text or is shorter than a nonce.
    InvalidCiphertext,
    /// The decrypted bytes are not UTF-8.
    EncodingError,
}

/// Every failure a public operation can report.
#[derive(Clone, Copy, Debug, PartialEq, Eq, Structural)]
pub enum ServiceError {
    /// A required input is empty or missing.
    ConfigurationError,
    /// The secret was never saved.
    NotConfigured(SecretKind),
    /// The cipher failed.
    Cipher(CipherError),
    /// The connection failed.
    TransportError,
    /// The remote endpoint answered with a status outside 200..=299.
    ApiError { status: u16 },
    /// A response of the endpoint was not the expected JSON.
    ParseError,
    /// The local file system failed.
    IoError,
}

/// Whether an HTTP status code reports success.
pub open spec fn is_success_status(status: u16) -> bool {
    200 <= status < 300
}

/// Tells whether `status` is one of the success codes, 200 to 299.
pub fn is_success(status: u16) -> (ok: bool)
    ensures
        ok == is_success_status(status),
{
    200 <= status && status < 300
}

/// The character of a decimal digit.
pub open spec fn digit_char(digit: nat) -> char {
    if digit == 0 {
        '0'
    } else if digit == 1 {
        '1'
    } else if digit == 2 {
        '2'
    } else if digit == 3 {
        '3'
    } else if digit == 4 {
        '4'
    } else if digit == 5 {
        '5'
    } else if digit == 6 {
        '6'
    } else if digit == 7 {
        '7'
    } else if digit == 8 {
        '8'
    } else {
        '9'
    }
}

/// The decimal digits of `n`, without leading zeros.
pub open spec fn decimal_of(n: nat) -> Seq<char>
    decreases n,
{
    if n < 10 {
        seq![digit_char(n)]
    } else {
        decimal_of(n / 10).push(digit_char(n % 10))
    }
}

/// The text of one decimal digit.
fn digit_text(digit: u16) -> (text: &'static str)
    requires
        digit < 10,
    ensures
        text@ == seq![digit_char(digit as nat)],
{
    proof {
        reveal_strlit("0");
        reveal_strlit("1");
        reveal_strlit("2");
        reveal_strlit("3");
        reveal_strlit("4");
        reveal_strlit("5");
        reveal_strlit("6");
        reveal_strlit("7");
        reveal_strlit("8");
        reveal_strlit("9");
    }
    let text: &'static str = match digit {
        0 => "0",
        1 => "1",
        2 => "2",
        3 => "3",
        4 => "4",
        5 => "5",
        6 => "6",
        7 => "7",
        8 => "8",
        _ => "9",
    };
    assert(text@ =~= seq![digit_char(digit as nat)]);
    text
}

/// Writes `n` in decimal digits.
pub fn decimal(n: u16) -> (text: String)
    ensures
        text@ == decimal_of(n as nat),
{
    let mut text = String::from_str(digit_text(n % 10));
    let mut rest: u16 = n / 10;
    while rest > 0
        invariant
            rest > 0 ==> decimal_of(n as nat) == decimal_of(rest as nat) + text@,
            rest == 0 ==> decimal_of(n as nat) == text@,
        decreases rest,
    {
        let ghost tail = text@;
        let ghost digit = seq![digit_char((rest % 10) as nat)];
        text = String::from_str(digit_text(rest % 10)).concat(text.as_str());
        proof {
            if rest >= 10 {
                assert(decimal_of(rest as nat) == decimal_of((rest / 10) as nat).push(
                    digit_char((rest % 10) as nat),
                ));
                assert(decimal_of((rest / 10) as nat).push(digit_char((rest % 10) as nat)) + tail
                    =~= decimal_of((rest / 10) as nat) + (digit + tail));
            }
        }
        rest = rest / 10;
    }
    text
}

/// The message of each error.
pub open spec fn message_of(error: ServiceError) -> Seq<char> {
    match error {
        ServiceError::ConfigurationError => "输入不能为空"@,
        ServiceError::NotConfigured(SecretKind::Credential) => "API key 未设置"@,
        ServiceError::NotConfigured(SecretKind::EndpointUrl) => "API URL 未设置"@,
        ServiceError::Cipher(CipherError::KeyIoError) => "无法读取加密密钥"@,
        ServiceError::Cipher(CipherError::EncryptionFailed) => "加密失败"@,
        ServiceError::Cipher(CipherError::DecryptionFailed) => "解密失败"@,
        ServiceError::Cipher(CipherError::InvalidCiphertext) => "无效的加密数据"@,
        ServiceError::Cipher(CipherError::EncodingError) => "无法解析解密数据"@,
        ServiceError::TransportError => "网络请求失败"@,
        ServiceError::ApiError { status } => "API request failed with status: "@ + decimal_of(
            status as nat,
        ),
        ServiceError::ParseError => "解析模型列表失败"@,
        ServiceError::IoError => "文件读写失败"@,
    }
}

impl ServiceError {
    /// The message that describes this error to the user.
    pub fn message(&self) -> (text: String)
        ensures
            text@ == message_of(*self),
    {
        match self {
            ServiceError::ConfigurationError => String::from_str("输入不能为空"),
            ServiceError::NotConfigured(SecretKind::Credential) => String::from_str(
                "API key 未设置",
            ),
            ServiceError::NotConfigured(SecretKind::EndpointUrl) => String::from_str(
                "API URL 未设置",
            ),
            ServiceError::Cipher(CipherError::KeyIoError) => String::from_str("无法读取加密密钥"),
            ServiceError::Cipher(CipherError::EncryptionFailed) => String::from_str("加密失败"),
            ServiceError::Cipher(CipherError::DecryptionFailed) => String::from_str("解密失败"),
            ServiceError::Cipher(CipherError::InvalidCiphertext) => String::from_str(
                "无效的加密数据",
            ),
            ServiceError::Cipher(CipherError::EncodingError) => String::from_str(
                "无法解析解密数据",
            ),
            ServiceError::TransportError => String::from_str("网络请求失败"),
            ServiceError::ApiError { status } => String::from_str(
                "API request failed with status: ",
            ).concat(decimal(*status).as_str()),
            ServiceError::ParseError => String::from_str("解析模型列表失败"),
            ServiceError::IoError => String::from_str("文件读写失败"),
        }
    }
}

} // verus!
