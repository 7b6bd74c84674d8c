//! Errors that the library reports.
use vstd::prelude::*;
use vstd::string::*;

verus! {

/// Why an operation failed.
#[derive(Debug)]
pub enum Error {
    /// A git command failed; the text says which.
    Git(String),
    /// The current directory is not inside a git repository.
    NotGitRepo,
    /// No profile has the given name.
    ProfileNotFound(String),
    /// There is no configuration file yet.
    ConfigNotFound,
    /// Any other failure, described by the text.
    Other(String),
}

/// The text shown to the user for `e`.
pub open spec fn error_message(e: Error) -> Seq<char> {
    match e {
        Error::Git(msg) => "Git 에러: "@ + msg@,
        Error::NotGitRepo => "현재 디렉토리는 Git 저장소가 아닙니다"@,
        Error::ProfileNotFound(name) => "프로필 '"@ + name@ + "'을 찾을 수 없습니다"@,
        Error::ConfigNotFound => "설정 파일이 없습니다. 'git-switcher init' 명령으로 초기화하세요"@,
        Error::Other(msg) => msg@,
    }
}

impl Error {
    /// The text shown to the user for this error.
    pub fn message(&self) -> (m: String)
        ensures
            m@ == error_message(*self),
    {
        match self {
            Error::Git(msg) => {
                let mut m = "Git 에러: ".to_owned();
                m.append(msg.as_str());
                m
            },
            Error::NotGitRepo => "현재 디렉토리는 Git 저장소가 아닙니다".to_owned(),
            Error::ProfileNotFound(name) => {
                let mut m = "프로필 '".to_owned();
                m.append(name.as_str());
                m.append("'을 찾을 수 없습니다");
                m
            },
            Error::ConfigNotFound => "설정 파일이 없습니다. 'git-switcher init' 명령으로 초기화하세요".to_owned(),
            Error::Other(msg) => msg.clone(),
        }
    }
}

} // verus!
