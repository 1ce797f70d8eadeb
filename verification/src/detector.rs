//! Defaults chosen per framework: the port a project serves on, the command
//! that starts it, and the icon shown for it.
use crate::models::Framework;
use vstd::prelude::*;

verus! {

/// The port a framework's development server listens on by default.
pub open spec fn port_of(f: Framework) -> u16 {
    match f {
        Framework::Laravel => 8000,
        Framework::NextJs => 3000,
        Framework::React => 5173,
        Framework::Vue => 5173,
        Framework::Nuxt => 3000,
        Framework::Node => 3000,
        Framework::Python => 8000,
        Framework::Django => 8000,
        Framework::FastAPI => 8000,
        Framework::Rust => 8080,
        Framework::Go => 8080,
        Framework::Unknown => 3000,
    }
}

/// The command that starts a framework's development server.
pub open spec fn run_command_of(f: Framework) -> Seq<char> {
    match f {
        Framework::Laravel => "php artisan serve"@,
        Framework::NextJs => "npm run dev"@,
        Framework::React => "npm run dev"@,
        Framework::Vue => "npm run dev"@,
        Framework::Nuxt => "npm run dev"@,
        Framework::Node => "npm start"@,
        Framework::Python => "python main.py"@,
        Framework::Django => "python manage.py runserver"@,
        Framework::FastAPI => "uvicorn main:app --reload"@,
        Framework::Rust => "cargo run"@,
        Framework::Go => "go run ."@,
        Framework::Unknown => "echo 'No run command configured'"@,
    }
}

/// The icon shown for a framework.
pub open spec fn icon_of(f: Framework) -> Seq<char> {
    match f {
        Framework::Laravel => "🐘"@,
        Framework::NextJs => "▲"@,
        Framework::React => "⚛"@,
        Framework::Vue => "◈"@,
        Framework::Nuxt => "◆"@,
        Framework::Node => "⬡"@,
        Framework::Python => "🐍"@,
        Framework::Django => "🎸"@,
        Framework::FastAPI => "⚡"@,
        Framework::Rust => "🦀"@,
        Framework::Go => "🐹"@,
        Framework::Unknown => "📦"@,
    }
}

/// The port a framework's development server listens on by default.
pub fn default_port(framework: &Framework) -> (r: u16)
    ensures
        r == port_of(*framework),
{
    match framework {
        Framework::Laravel => 8000,
        Framework::NextJs => 3000,
        Framework::React => 5173,
        Framework::Vue => 5173,
        Framework::Nuxt => 3000,
        Framework::Node => 3000,
        Framework::Python => 8000,
        Framework::Django => 8000,
        Framework::FastAPI => 8000,
        Framework::Rust => 8080,
        Framework::Go => 8080,
        Framework::Unknown => 3000,
    }
}

/// The command that starts a framework's development server.
pub fn default_run_command(framework: &Framework) -> (r: &'static str)
    ensures
        r@ == run_command_of(*framework),
{
    match framework {
        Framework::Laravel => "php artisan serve",
        Framework::NextJs => "npm run dev",
        Framework::React => "npm run dev",
        Framework::Vue => "npm run dev",
        Framework::Nuxt => "npm run dev",
        Framework::Node => "npm start",
        Framework::Python => "python main.py",
        Framework::Django => "python manage.py runserver",
        Framework::FastAPI => "uvicorn main:app --reload",
        Framework::Rust => "cargo run",
        Framework::Go => "go run .",
        Framework::Unknown => "echo 'No run command configured'",
    }
}

/// The icon shown for a framework.
pub fn framework_icon(framework: &Framework) -> (r: &'static str)
    ensures
        r@ == icon_of(*framework),
{
    match framework {
        Framework::Laravel => "🐘",
        Framework::NextJs => "▲",
        Framework::React => "⚛",
        Framework::Vue => "◈",
        Framework::Nuxt => "◆",
        Framework::Node => "⬡",
        Framework::Python => "🐍",
        Framework::Django => "🎸",
        Framework::FastAPI => "⚡",
        Framework::Rust => "🦀",
        Framework::Go => "🐹",
        Framework::Unknown => "📦",
    }
}

} // verus!
