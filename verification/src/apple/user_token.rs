//! The page that signs the listener in to Apple Music with MusicKit JS and
//! posts the Music User Token back to rocola's loopback server.
use vstd::prelude::*;

use crate::text::{chars_of, replace_all, replace_chars, string_of};

verus! {

/// The sign-in page, with `__DEV_TOKEN__` where the developer token goes.
pub const MUSICKIT_PAGE: &'static str = "<!doctype html>
<html lang=\"en\">
<head>
<meta charset=\"utf-8\">
<meta name=\"referrer\" content=\"strict-origin-when-cross-origin\">
<title>rocola: connect Apple Music</title>
<script src=\"https://js-cdn.music.apple.com/musickit/v3/musickit.js\" data-web-components async></script>
</head>
<body>
<h1>Connect rocola to Apple Music</h1>
<p>rocola is asking for permission to create playlists in your Apple Music library.</p>
<button id=\"connect\" disabled>Connect Apple Music</button>
<p id=\"status\"></p>
<script>
document.addEventListener('musickitloaded', async () => {
  await MusicKit.configure({
    developerToken: '__DEV_TOKEN__',
    app: { name: 'rocola', build: '1.0.0' },
  });
  const button = document.getElementById('connect');
  const status = document.getElementById('status');
  button.disabled = false;
  button.addEventListener('click', async () => {
    try {
      const userToken = await MusicKit.getInstance().authorize();
      await fetch('/token', {
        method: 'POST',
        headers: { 'Content-Type': 'application/json' },
        body: JSON.stringify({ userToken }),
      });
      status.textContent = 'Connected. You can close this tab and return to the terminal.';
    } catch (e) {
      status.textContent = 'The Apple Music sign-in did not finish. Return to the terminal for what to do next.';
    }
  });
});
</script>
</body>
</html>
";

/// The placeholder the page carries for the developer token.
pub open spec fn token_placeholder() -> Seq<char> {
    "__DEV_TOKEN__"@
}

/// The sign-in page for this developer token.
pub fn render_page(developer_token: &str) -> (r: String)
    ensures
        r@ == replace_all(MUSICKIT_PAGE@, token_placeholder(), developer_token@),
{
    let page = chars_of(MUSICKIT_PAGE);
    let placeholder = chars_of("__DEV_TOKEN__");
    proof {
        reveal_strlit("__DEV_TOKEN__");
    }
    let token = chars_of(developer_token);
    let out = replace_chars(&page, &placeholder, &token);
    string_of(&out)
}

} // verus!
