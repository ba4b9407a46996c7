//! The embedded catalogs, one flat JSON object of strings per language.

use vstd::prelude::*;

verus! {

pub const ES: &'static str = r#"{
  "check.url_refused": "URL de health no permitida: {error}",
  "check.keyword_missing": "La respuesta no contiene «{keyword}»",
  "check.cert_expiring": "El certificado vence en {days} días",
  "check.attempts": "{message} ({n} intentos)",
  "check.bundle_status": "Bundle roto: {path} respondió HTTP {status}",
  "check.bundle_type": "Bundle roto: {path} respondió {type}",
  "check.bundle_no_type": "Bundle roto: {path} respondió sin tipo de contenido",
  "check.bundle_unreachable": "Bundle roto: {path} no cargó: {error}",
  "err.empty_name": "El nombre no puede estar vacío",
  "err.name_no_alnum": "El nombre necesita al menos una letra o un número",
  "err.invalid_url": "La URL de {label} debe empezar con http:// o https://",
  "err.interval": "El intervalo debe estar entre {min} y {max} segundos",
  "err.timeout": "El timeout debe estar entre 1 y {max} segundos",
  "err.status": "{code} no es un código de estado HTTP",
  "err.header": "Header no válido: {header}",
  "err.webhook": "Webhook no válido: {url}",
  "err.mention": "Mención no reconocida: {entry}",
  "err.too_many": "Demasiadas entradas en {field}",
  "err.slug_taken": "Ya hay una app registrada con un nombre equivalente",
  "err.not_found": "No existe la app '{slug}'",
  "err.internal": "Error interno: {error}",
  "err.threshold": "El umbral debe ser un número de milisegundos",
  "err.url_field": "{label}: {error}",
  "err.label_logs": "URL de logs",
  "err.label_health": "URL de health",
  "outbound.invalid_url": "URL inválida: {error}",
  "outbound.not_https": "solo se permiten URLs https://",
  "outbound.host_not_allowed": "el host '{host}' no está en ALLOWED_HOSTS",
  "outbound.missing_port": "una URL tcp:// necesita un puerto",
  "notices.err_title": "El título no puede estar vacío",
  "notices.err_long": "El título admite {title} caracteres y el texto {body}",
  "alert.default_down": "{mentions} 🔴 {app} está caída: {message}\n{link}",
  "alert.default_reminder": "{mentions} 🔴 {app} sigue caída ({duration}): {message}\n{link}",
  "alert.default_degraded": "🟡 {app} está lenta ({latency}): {message}\n{link}",
  "alert.default_recovered": "🟢 {app} se recuperó ({duration}): {message}\n{link}",
  "alert.mass_down": "{mentions} 🌐 {down} de {total} apps caídas a la vez: lo más probable es que falle la red de Heartbeat. Las alertas individuales esperan.\n{link}",
  "alert.mass_recovered": "🌐 Terminó la caída masiva ({total} apps monitoreadas).\n{link}",
  "alert.test_app": "[Prueba] App de ejemplo",
  "alert.ping": "🏓 Ping de Heartbeat: este webhook funciona.",
  "api.no_session": "No hay sesión activa",
  "api.forbidden": "Solo para administradores",
  "api.not_registered": "App '{slug}' no está registrada",
  "api.no_logs": "'{name}' no tiene URL de logs",
  "api.logs_refused": "La URL de logs de '{name}' no está permitida: {error}",
  "api.unreachable": "No se pudo conectar con '{name}': {error}",
  "api.unreadable": "No se pudo leer la respuesta de '{name}': {error}",
  "api.not_json": "'{name}' respondió {status} con un cuerpo no-JSON ({bytes} bytes)",
  "login.throttled": "Demasiados intentos fallidos: espera {minutes} min.",
  "login.invalid": "Email o contraseña incorrectos",
  "login.not_admin": "Tu cuenta no tiene permisos de administrador",
  "login.unreachable": "No se pudo contactar al servidor de login",
  "login.bad_response": "El servidor de login respondió algo inesperado",
  "login.no_token": "El servidor de login no devolvió un token",
  "login.session_failed": "No se pudo iniciar la sesión",
  "status.state_paused": "En mantenimiento",
  "status.state_up": "Operativo",
  "status.state_degraded": "Lento",
  "status.state_down": "Caído",
  "status.state_unknown": "Sin datos"
}
"#;

pub const EN: &'static str = r#"{
  "check.url_refused": "Health URL not allowed: {error}",
  "check.keyword_missing": "The response doesn't contain “{keyword}”",
  "check.cert_expiring": "The certificate expires in {days} days",
  "check.attempts": "{message} ({n} attempts)",
  "check.bundle_status": "Broken bundle: {path} answered HTTP {status}",
  "check.bundle_type": "Broken bundle: {path} answered {type}",
  "check.bundle_no_type": "Broken bundle: {path} answered without a content type",
  "check.bundle_unreachable": "Broken bundle: {path} didn't load: {error}",
  "err.empty_name": "The name can't be empty",
  "err.name_no_alnum": "The name needs at least one letter or digit",
  "err.invalid_url": "The {label} URL must start with http:// or https://",
  "err.interval": "The interval must be between {min} and {max} seconds",
  "err.timeout": "The timeout must be between 1 and {max} seconds",
  "err.status": "{code} isn't an HTTP status code",
  "err.header": "Invalid header: {header}",
  "err.webhook": "Invalid webhook: {url}",
  "err.mention": "Unrecognized mention: {entry}",
  "err.too_many": "Too many entries in {field}",
  "err.slug_taken": "An app with an equivalent name is already registered",
  "err.not_found": "There's no app '{slug}'",
  "err.internal": "Internal error: {error}",
  "err.threshold": "The threshold must be a number of milliseconds",
  "err.url_field": "{label}: {error}",
  "err.label_logs": "Logs URL",
  "err.label_health": "Health URL",
  "outbound.invalid_url": "invalid URL: {error}",
  "outbound.not_https": "only https:// URLs are allowed",
  "outbound.host_not_allowed": "the host '{host}' isn't in ALLOWED_HOSTS",
  "outbound.missing_port": "a tcp:// URL needs a port",
  "notices.err_title": "The title can't be empty",
  "notices.err_long": "The title takes up to {title} characters and the text up to {body}",
  "alert.default_down": "{mentions} 🔴 {app} is down: {message}\n{link}",
  "alert.default_reminder": "{mentions} 🔴 {app} is still down ({duration}): {message}\n{link}",
  "alert.default_degraded": "🟡 {app} is slow ({latency}): {message}\n{link}",
  "alert.default_recovered": "🟢 {app} recovered ({duration}): {message}\n{link}",
  "alert.mass_down": "{mentions} 🌐 {down} of {total} apps down at once: most likely Heartbeat's own network. Individual alerts are on hold.\n{link}",
  "alert.mass_recovered": "🌐 The mass outage is over ({total} monitored apps).\n{link}",
  "alert.test_app": "[Test] Sample app",
  "alert.ping": "🏓 Ping from Heartbeat: this webhook works.",
  "api.no_session": "No active session",
  "api.forbidden": "Admins only",
  "api.not_registered": "App '{slug}' isn't registered",
  "api.no_logs": "'{name}' has no logs URL",
  "api.logs_refused": "The logs URL of '{name}' isn't allowed: {error}",
  "api.unreachable": "Could not reach '{name}': {error}",
  "api.unreadable": "Could not read the answer of '{name}': {error}",
  "api.not_json": "'{name}' answered {status} with a non-JSON body ({bytes} bytes)",
  "login.throttled": "Too many failed attempts: wait {minutes} min.",
  "login.invalid": "Wrong email or password",
  "login.not_admin": "Your account has no admin rights",
  "login.unreachable": "Could not reach the login server",
  "login.bad_response": "The login server answered something unexpected",
  "login.no_token": "The login server returned no token",
  "login.session_failed": "Could not start the session",
  "status.state_paused": "Under maintenance",
  "status.state_up": "Operational",
  "status.state_degraded": "Slow",
  "status.state_down": "Down",
  "status.state_unknown": "No data"
}
"#;

} // verus!
